use splitype_editor::paste_action::{multiline_paste_plan, paste_action, MultilinePastePlan, PasteAction, PasteContext};

fn ctx() -> PasteContext {
    PasteContext {
        thematic_break: false,
        edits_verbatim_text: false,
        cross_block_selection: false,
        table_cell: false,
        quote_depth: 0,
    }
}

#[test]
fn thematic_break_takes_nothing_unless_verbatim() {
    let hr = PasteContext { thematic_break: true, ..ctx() };
    assert_eq!(paste_action(&hr, true, Some("x"), false), PasteAction::Ignore);
    let verbatim_hr = PasteContext { thematic_break: true, edits_verbatim_text: true, ..ctx() };
    assert_eq!(paste_action(&verbatim_hr, false, Some("x"), false), PasteAction::InsertText("x".to_string()));
}

#[test]
fn images_come_first() {
    assert_eq!(paste_action(&ctx(), true, Some("a\nb"), true), PasteAction::PasteClipboardImage);
    assert_eq!(paste_action(&ctx(), false, Some("/tmp/a.png"), true), PasteAction::PasteImagePath);
    assert_eq!(paste_action(&ctx(), false, None, false), PasteAction::Ignore);
}

#[test]
fn cross_block_selection_takes_raw_text() {
    let c = PasteContext { cross_block_selection: true, table_cell: true, ..ctx() };
    assert_eq!(paste_action(&c, false, Some("a\r\nb"), false), PasteAction::ReplaceCrossBlockSelection("a\r\nb".to_string()));
}

#[test]
fn table_cell_flattens_line_breaks() {
    let c = PasteContext { table_cell: true, ..ctx() };
    assert_eq!(paste_action(&c, false, Some("a\r\nb\rc\nd"), false), PasteAction::InsertText("a b c d".to_string()));
}

#[test]
fn verbatim_block_keeps_text() {
    let c = PasteContext { edits_verbatim_text: true, ..ctx() };
    assert_eq!(paste_action(&c, false, Some("a\r\nb"), false), PasteAction::InsertText("a\r\nb".to_string()));
}

#[test]
fn multiline_text_becomes_lines_or_normalized_quote_text() {
    assert_eq!(
        paste_action(&ctx(), false, Some("one\r\ntwo\rthree\n"), false),
        PasteAction::PasteMultiline(vec!["one".to_string(), "two".to_string(), "three".to_string(), String::new()])
    );
    let quoted = PasteContext { quote_depth: 2, ..ctx() };
    assert_eq!(
        paste_action(&quoted, false, Some("one\r\ntwo\rthree"), false),
        PasteAction::InsertText("one\ntwo\nthree".to_string())
    );
    assert_eq!(paste_action(&ctx(), false, Some("single line"), false), PasteAction::InsertText("single line".to_string()));
}

#[test]
fn multiline_paste_lines_rejoin_to_the_normalized_text() {
    let text = "first\r\n\r\nsecond\rthird\n";
    match paste_action(&ctx(), false, Some(text), false) {
        PasteAction::PasteMultiline(lines) => {
            for line in &lines {
                assert!(!line.contains('\n'));
                assert!(!line.contains('\r'));
            }
            assert_eq!(lines.join("\n"), "first\n\nsecond\nthird\n");
        }
        other => panic!("expected a multi-line paste, got {:?}", other),
    }
}

#[test]
fn multiline_paste_plans_follow_the_kind_of_text() {
    // Plain text: the first line joins the block, the rest become blocks.
    let plain = multiline_paste_plan(3, true, false, false).unwrap();
    assert_eq!(
        plain,
        MultilinePastePlan {
            first_line_into_block: true,
            tail_start: 1,
            stays_in_block: false,
            trailing_paragraph: false,
            drop_current_block: false,
        }
    );
    // A single plain line stays in the block.
    assert!(multiline_paste_plan(1, true, false, false).unwrap().stays_in_block);
    // Structural Markdown onto an empty line, text after the caret.
    let structural = multiline_paste_plan(2, false, true, false).unwrap();
    assert_eq!(structural.tail_start, 0);
    assert!(structural.drop_current_block && structural.trailing_paragraph);
    assert_eq!(multiline_paste_plan(0, true, true, true), None);
}
