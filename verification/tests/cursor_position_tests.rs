use splitype_editor::cursor_position::{cursor_line_col, cursor_line_prefix};

#[test]
fn line_and_column_of_caret() {
    assert_eq!(cursor_line_col("ab\ncd", 4), (2, 2));
    assert_eq!(cursor_line_col("ab\ncd", 3), (2, 1));
    assert_eq!(cursor_line_col("ab\ncd", 0), (1, 1));
    assert_eq!(cursor_line_col("ab", 99), (1, 3));
    assert_eq!(cursor_line_col("", 5), (1, 1));
    assert_eq!(cursor_line_col("a\n\n", 3), (3, 1));
}

#[test]
fn offsets_inside_a_character_count_from_its_start() {
    assert_eq!(cursor_line_col("é", 1), (1, 1));
    assert_eq!(cursor_line_col("é", 2), (1, 2));
    assert_eq!(cursor_line_prefix("xé\ny", 2), (1, "x".to_string()));
}

#[test]
fn columns_count_grapheme_clusters() {
    // "e" with a combining acute accent is one cluster.
    assert_eq!(cursor_line_col("e\u{301}x", 3), (1, 2));
    assert_eq!(cursor_line_col("e\u{301}x", 4), (1, 3));
    assert_eq!(cursor_line_prefix("ab\ncd", 4), (2, "c".to_string()));
}
