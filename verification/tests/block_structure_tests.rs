use splitype_editor::block_structure::{CaretLanding, FocusMove, FocusRequest};
use splitype_editor::block_structure::{
    kind_is_list_item, BlockEntry, BlockKind, DocModel, EditEffect, StructureAction,
};

fn entry(id: u64, kind: BlockKind, depth: usize) -> BlockEntry {
    BlockEntry { id, kind, depth }
}

fn doc(entries: Vec<BlockEntry>) -> DocModel {
    DocModel::from_entries(entries).expect("a well-formed outline")
}

fn shape(d: &DocModel) -> Vec<(u64, usize)> {
    d.entries().iter().map(|e| (e.id, e.depth)).collect()
}

#[test]
fn outlines_must_start_at_the_top_and_nest_one_level_at_a_time() {
    assert!(DocModel::from_entries(vec![]).is_some());
    assert!(DocModel::from_entries(vec![entry(1, BlockKind::Paragraph, 1)]).is_none());
    assert!(DocModel::from_entries(vec![
        entry(1, BlockKind::BulletListItem, 0),
        entry(2, BlockKind::BulletListItem, 2),
    ])
    .is_none());
}

#[test]
fn toggling_a_task_flips_it_and_is_recorded() {
    let mut d = doc(vec![entry(1, BlockKind::TaskListItem { checked: false }, 0)]);
    let effect = d.apply_structure_action(0, StructureAction::ToggleTaskChecked);
    assert_eq!(effect, EditEffect { changed: true, focus: None });
    assert_eq!(d.entries()[0].kind, BlockKind::TaskListItem { checked: true });
}

#[test]
fn indent_nests_under_the_previous_block_with_the_subtree() {
    let mut d = doc(vec![
        entry(1, BlockKind::BulletListItem, 0),
        entry(2, BlockKind::BulletListItem, 0),
        entry(3, BlockKind::BulletListItem, 1),
        entry(4, BlockKind::BulletListItem, 0),
    ]);
    let effect = d.apply_structure_action(1, StructureAction::Indent { nests_under_previous: true });
    assert_eq!(effect, EditEffect { changed: true, focus: Some(2) });
    assert_eq!(shape(&d), vec![(1, 0), (2, 1), (3, 2), (4, 0)]);
    // Already the child of the previous block: nothing happens.
    let again = d.apply_structure_action(1, StructureAction::Indent { nests_under_previous: true });
    assert_eq!(again, EditEffect { changed: false, focus: None });
    // The first block and a kind that may not nest stay put.
    assert!(!d.apply_structure_action(0, StructureAction::Indent { nests_under_previous: true }).changed);
    assert!(!d.apply_structure_action(3, StructureAction::Indent { nests_under_previous: false }).changed);
}

#[test]
fn outdent_moves_after_the_parent_subtree_or_becomes_a_paragraph() {
    let mut d = doc(vec![
        entry(1, BlockKind::BulletListItem, 0),
        entry(2, BlockKind::BulletListItem, 1),
        entry(3, BlockKind::BulletListItem, 2),
        entry(4, BlockKind::BulletListItem, 1),
        entry(5, BlockKind::Paragraph, 0),
    ]);
    let effect = d.apply_structure_action(1, StructureAction::Outdent);
    assert_eq!(effect, EditEffect { changed: true, focus: Some(2) });
    assert_eq!(shape(&d), vec![(1, 0), (4, 1), (2, 0), (3, 1), (5, 0)]);
    let top = d.apply_structure_action(0, StructureAction::Outdent);
    assert_eq!(top, EditEffect { changed: true, focus: Some(1) });
    assert_eq!(d.entries()[0].kind, BlockKind::Paragraph);
}

#[test]
fn nested_list_item_downgrades_to_a_paragraph() {
    let mut d = doc(vec![
        entry(1, BlockKind::OrderedListItem, 0),
        entry(2, BlockKind::BulletListItem, 1),
        entry(3, BlockKind::Blockquote, 0),
        entry(4, BlockKind::BulletListItem, 1),
    ]);
    assert!(kind_is_list_item(BlockKind::TaskListItem { checked: true }));
    let effect = d.apply_structure_action(1, StructureAction::DowngradeNestedListItem);
    assert_eq!(effect, EditEffect { changed: true, focus: Some(2) });
    assert_eq!(d.entries()[1].kind, BlockKind::Paragraph);
    assert_eq!(shape(&d), vec![(1, 0), (2, 1), (3, 0), (4, 1)]);
    // The parent is no list item: nothing happens.
    assert!(!d.apply_structure_action(3, StructureAction::DowngradeNestedListItem).changed);
    assert_eq!(d.entries()[3].kind, BlockKind::BulletListItem);
}

#[test]
fn deleting_the_last_block_leaves_an_empty_paragraph() {
    let mut d = doc(vec![entry(7, BlockKind::Heading, 0)]);
    let effect = d.apply_structure_action(0, StructureAction::Delete { text_empty: false });
    assert_eq!(effect, EditEffect { changed: true, focus: Some(7) });
    assert_eq!(d.entries().len(), 1);
    assert_eq!(d.entries()[0].kind, BlockKind::Paragraph);
    let again = d.apply_structure_action(0, StructureAction::Delete { text_empty: false });
    assert_eq!(again, EditEffect { changed: false, focus: Some(7) });
    assert_eq!(d.entries().len(), 1);
}

#[test]
fn deleting_a_block_lifts_its_children_and_focuses_a_neighbour() {
    let mut d = doc(vec![
        entry(1, BlockKind::Paragraph, 0),
        entry(2, BlockKind::BulletListItem, 0),
        entry(3, BlockKind::BulletListItem, 1),
        entry(4, BlockKind::BulletListItem, 2),
        entry(5, BlockKind::Paragraph, 0),
    ]);
    let effect = d.apply_structure_action(1, StructureAction::Delete { text_empty: false });
    assert_eq!(effect, EditEffect { changed: true, focus: Some(1) });
    assert_eq!(shape(&d), vec![(1, 0), (3, 0), (4, 1), (5, 0)]);
    let first = d.apply_structure_action(0, StructureAction::Delete { text_empty: false });
    assert_eq!(first, EditEffect { changed: true, focus: Some(3) });
    assert_eq!(shape(&d), vec![(3, 0), (4, 1), (5, 0)]);
}

#[test]
fn an_index_outside_the_document_changes_nothing() {
    let mut d = doc(vec![entry(1, BlockKind::Paragraph, 0)]);
    assert_eq!(d.apply_structure_action(3, StructureAction::Delete { text_empty: false }), EditEffect { changed: false, focus: None });
    assert_eq!(shape(&d), vec![(1, 0)]);
}

#[test]
fn focus_moves_to_the_neighbouring_block_or_into_a_table() {
    let d = doc(vec![
        entry(1, BlockKind::Paragraph, 0),
        entry(2, BlockKind::Table, 0),
        entry(3, BlockKind::CodeBlock, 0),
    ]);
    assert_eq!(d.focus_move(0, FocusRequest::Previous, false), FocusMove::Stay);
    assert_eq!(d.focus_move(0, FocusRequest::Next, false), FocusMove::TableCell { table: 2, from_above: true });
    assert_eq!(d.focus_move(2, FocusRequest::BlockUp, true), FocusMove::TableCell { table: 2, from_above: false });
    assert_eq!(d.focus_move(1, FocusRequest::Previous, false), FocusMove::Block { id: 1, caret: CaretLanding::LastLine });
    assert_eq!(d.focus_move(1, FocusRequest::BlockDown, false), FocusMove::Block { id: 3, caret: CaretLanding::Start });
    assert_eq!(d.focus_move(1, FocusRequest::Next, false), FocusMove::Block { id: 3, caret: CaretLanding::FirstLine });
    // Arrow down from a trailing code block lands on a new paragraph.
    assert_eq!(d.focus_move(2, FocusRequest::Next, true), FocusMove::TrailingParagraph);
    assert_eq!(d.focus_move(2, FocusRequest::BlockDown, true), FocusMove::Stay);
    assert_eq!(d.focus_move(2, FocusRequest::Next, false), FocusMove::Stay);
}

#[test]
fn new_lines_add_a_sibling_after_the_subtree_or_a_paragraph_before() {
    let mut d = doc(vec![
        entry(1, BlockKind::BulletListItem, 0),
        entry(2, BlockKind::BulletListItem, 1),
        entry(3, BlockKind::Paragraph, 0),
    ]);
    let effect = d.apply_structure_action(0, StructureAction::Newline { new_id: 9, new_kind: BlockKind::BulletListItem });
    assert_eq!(effect, EditEffect { changed: true, focus: Some(9) });
    assert_eq!(shape(&d), vec![(1, 0), (2, 1), (9, 0), (3, 0)]);
    assert_eq!(d.entries()[2].kind, BlockKind::BulletListItem);
    let above = d.apply_structure_action(1, StructureAction::NewlineAbove { new_id: 10 });
    assert_eq!(above, EditEffect { changed: true, focus: Some(2) });
    assert_eq!(shape(&d), vec![(1, 0), (10, 1), (2, 1), (9, 0), (3, 0)]);
    assert_eq!(d.entries()[1].kind, BlockKind::Paragraph);
}

#[test]
fn merging_into_the_previous_block_removes_the_block_and_keeps_its_children() {
    // The previous block is the parent: the children follow its own.
    let mut d = doc(vec![
        entry(1, BlockKind::BulletListItem, 0),
        entry(2, BlockKind::BulletListItem, 1),
        entry(3, BlockKind::BulletListItem, 2),
        entry(4, BlockKind::BulletListItem, 1),
        entry(5, BlockKind::Paragraph, 0),
    ]);
    let effect = d.apply_structure_action(1, StructureAction::MergeIntoPrevious);
    assert_eq!(effect, EditEffect { changed: true, focus: Some(1) });
    assert_eq!(shape(&d), vec![(1, 0), (4, 1), (3, 1), (5, 0)]);
    // The previous block is a leaf: the children move under it.
    let mut e = doc(vec![
        entry(1, BlockKind::Paragraph, 0),
        entry(2, BlockKind::BulletListItem, 0),
        entry(3, BlockKind::BulletListItem, 1),
    ]);
    assert_eq!(e.apply_structure_action(1, StructureAction::MergeIntoPrevious), EditEffect { changed: true, focus: Some(1) });
    assert_eq!(shape(&e), vec![(1, 0), (3, 1)]);
    // The first block merges into nothing.
    assert_eq!(e.apply_structure_action(0, StructureAction::MergeIntoPrevious), EditEffect { changed: false, focus: None });
}

#[test]
fn quote_breaks_start_a_new_quote_after_the_nearest_quote() {
    let mut d = doc(vec![
        entry(1, BlockKind::Blockquote, 0),
        entry(2, BlockKind::Paragraph, 1),
        entry(3, BlockKind::Paragraph, 0),
    ]);
    let effect = d.apply_structure_action(1, StructureAction::QuoteBreak { separator_id: 8, quote_id: 9 });
    assert_eq!(effect, EditEffect { changed: true, focus: Some(9) });
    assert_eq!(shape(&d), vec![(1, 0), (2, 1), (9, 0), (3, 0)]);
    assert_eq!(d.entries()[2].kind, BlockKind::Blockquote);
    // No quote around: nothing happens.
    assert!(!d.apply_structure_action(3, StructureAction::QuoteBreak { separator_id: 10, quote_id: 11 }).changed);
}

#[test]
fn callout_breaks_leave_the_outermost_quote_run() {
    let mut d = doc(vec![
        entry(1, BlockKind::BulletListItem, 0),
        entry(2, BlockKind::Callout, 1),
        entry(3, BlockKind::Blockquote, 2),
        entry(4, BlockKind::Paragraph, 3),
    ]);
    let effect = d.apply_structure_action(3, StructureAction::CalloutBreak { separator_id: 8, paragraph_id: 9 });
    assert_eq!(effect, EditEffect { changed: true, focus: Some(9) });
    // The run of quotes starts at the callout (depth 1): a separator and
    // the new paragraph follow it, at its depth.
    assert_eq!(shape(&d), vec![(1, 0), (2, 1), (3, 2), (4, 3), (8, 1), (9, 1)]);
}

#[test]
fn deleting_the_empty_body_of_a_callout_turns_it_into_a_quote() {
    let mut d = doc(vec![
        entry(1, BlockKind::Callout, 0),
        entry(2, BlockKind::Paragraph, 1),
        entry(3, BlockKind::Paragraph, 0),
    ]);
    // A body with text is deleted as any block.
    let mut e = doc(vec![entry(1, BlockKind::Callout, 0), entry(2, BlockKind::Paragraph, 1)]);
    assert_eq!(e.apply_structure_action(1, StructureAction::Delete { text_empty: false }), EditEffect { changed: true, focus: Some(1) });
    assert_eq!(e.entries()[0].kind, BlockKind::Callout);
    let effect = d.apply_structure_action(1, StructureAction::Delete { text_empty: true });
    assert_eq!(effect, EditEffect { changed: true, focus: Some(1) });
    assert_eq!(shape(&d), vec![(1, 0), (3, 0)]);
    assert_eq!(d.entries()[0].kind, BlockKind::Blockquote);
}

#[test]
fn entering_a_callout_focuses_its_body_or_creates_one() {
    // A callout without a body gets an empty paragraph one level below it.
    let mut d = doc(vec![entry(1, BlockKind::Callout, 0), entry(2, BlockKind::Paragraph, 0)]);
    let effect = d.apply_structure_action(0, StructureAction::EnterCalloutBody { body_id: 7 });
    assert_eq!(effect, EditEffect { changed: true, focus: Some(7) });
    assert_eq!(shape(&d), vec![(1, 0), (7, 1), (2, 0)]);
    assert_eq!(d.entries()[1].kind, BlockKind::Paragraph);
    // Now it has one: the body is focused and nothing changes.
    let again = d.apply_structure_action(0, StructureAction::EnterCalloutBody { body_id: 8 });
    assert_eq!(again, EditEffect { changed: false, focus: Some(7) });
    assert_eq!(shape(&d), vec![(1, 0), (7, 1), (2, 0)]);
    // Any other block is left alone.
    let other = d.apply_structure_action(2, StructureAction::EnterCalloutBody { body_id: 9 });
    assert_eq!(other, EditEffect { changed: false, focus: None });
    assert_eq!(shape(&d), vec![(1, 0), (7, 1), (2, 0)]);
}
