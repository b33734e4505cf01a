use splitype_editor::source_map::{build_code_block_content_mapping, build_prefixed_content_mapping};

#[test]
fn quote_prefix_on_every_line() {
    let (full, c2s, s2c) = build_prefixed_content_mapping("ab\ncd", "> ", "> ");
    assert_eq!(full, "> ab\n> cd");
    assert_eq!(c2s, vec![2, 3, 4, 7, 8, 9]);
    assert_eq!(s2c, vec![0, 0, 0, 1, 2, 3, 3, 3, 4, 5]);
}

#[test]
fn list_item_prefix_differs_from_continuation() {
    let (full, c2s, s2c) = build_prefixed_content_mapping("a\nb", "- ", "  ");
    assert_eq!(full, "- a\n  b");
    assert_eq!(c2s, vec![2, 3, 6, 7]);
    assert_eq!(s2c, vec![0, 0, 0, 1, 2, 2, 2, 3]);
}

#[test]
fn multibyte_characters_keep_byte_offsets() {
    let (full, c2s, s2c) = build_prefixed_content_mapping("é", "", "");
    assert_eq!(full, "é");
    assert_eq!(c2s, vec![0, 0, 2]);
    assert_eq!(s2c, vec![0, 0, 2]);
    let (full, c2s, s2c) = build_prefixed_content_mapping("", "> ", "> ");
    assert_eq!(full, "> ");
    assert_eq!(c2s, vec![2]);
    assert_eq!(s2c, vec![0, 0, 0]);
}

#[test]
fn maps_round_trip_at_character_starts() {
    let content = "x\nyé\nz";
    let (_full, c2s, s2c) = build_prefixed_content_mapping(content, ">> ", "> ");
    for (offset, _) in content.char_indices() {
        assert_eq!(s2c[c2s[offset]], offset);
    }
    assert_eq!(s2c[c2s[content.len()]], content.len());
}

#[test]
fn fenced_code_block() {
    let (full, c2s, s2c) = build_code_block_content_mapping("x", "", Some("rs"), "```");
    assert_eq!(full, "```rs\nx\n```");
    assert_eq!(c2s, vec![6, 7]);
    assert_eq!(s2c, vec![0, 0, 0, 0, 0, 0, 0, 1, 1, 1, 1, 1]);
    let (full, c2s, _s2c) = build_code_block_content_mapping("a\nb", "  ", None, "~~~");
    assert_eq!(full, "~~~\n  a\n  b\n~~~");
    assert_eq!(c2s, vec![6, 7, 10, 11]);
}
