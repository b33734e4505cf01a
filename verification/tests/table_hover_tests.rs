use splitype_editor::table_hover::{AppendControlHover, HoverOutcome, TableAppendControls};

#[test]
fn append_column_button_stays_visible_while_crossing_hover_gap() {
    let mut block = TableAppendControls::new();
    block.set_table_append_column_hover_part(Some(true), None, None);
    assert!(block.column.hovered);

    block.set_table_append_column_hover_part(Some(false), None, Some(true));
    assert!(block.column.hovered);
    assert!(!block.column.edge_hovered);
    assert!(!block.column.zone_hovered);
    assert!(block.column.button_hovered);
    assert!(!block.column.close_pending);
}

#[test]
fn append_row_button_stays_visible_while_crossing_hover_gap() {
    let mut block = TableAppendControls::new();
    block.set_table_append_row_hover_part(Some(true), None, None);
    assert!(block.row.hovered);

    block.set_table_append_row_hover_part(Some(false), None, Some(true));
    assert!(block.row.hovered);
    assert!(!block.row.edge_hovered);
    assert!(!block.row.zone_hovered);
    assert!(block.row.button_hovered);
    assert!(!block.row.close_pending);
}

#[test]
fn column_edge_hover_reveals_only_column_append_control() {
    let mut block = TableAppendControls::new();
    block.set_table_append_column_hover_part(Some(true), None, None);
    assert!(block.column.edge_hovered);
    assert!(block.column.hovered);
    assert!(!block.row.hovered);
    assert!(!block.column.close_pending);
    assert!(!block.row.close_pending);
}

#[test]
fn row_edge_hover_reveals_only_row_append_control() {
    let mut block = TableAppendControls::new();
    block.set_table_append_row_hover_part(Some(true), None, None);
    assert!(block.row.edge_hovered);
    assert!(block.row.hovered);
    assert!(!block.column.hovered);
    assert!(!block.column.close_pending);
    assert!(!block.row.close_pending);
}

#[test]
fn leaving_starts_timer_and_timer_hides() {
    let mut h = AppendControlHover::new();
    let first = h.set_hover_part(None, Some(true), None);
    assert!(first.changed && !first.start_close_timer);
    let leave = h.set_hover_part(None, Some(false), None);
    assert!(leave.start_close_timer);
    assert!(h.hovered && h.close_pending);
    // A second leave does not start another timer.
    let again = h.set_hover_part(Some(false), None, None);
    assert!(!again.start_close_timer && !again.changed);
    assert!(h.close_timer_fired());
    assert!(!h.hovered && !h.close_pending);
    // A stale timer changes nothing.
    assert!(!h.close_timer_fired());
}

#[test]
fn returning_before_timer_cancels_close() {
    let mut h = AppendControlHover::new();
    h.set_hover_part(Some(true), None, None);
    h.set_hover_part(Some(false), None, None);
    assert!(h.close_pending);
    let back = h.set_hover_part(None, None, Some(true));
    assert!(back.cancel_close_timer);
    assert!(h.hovered && !h.close_pending);
    assert!(!h.close_timer_fired());
    assert!(h.hovered);
    assert!(h.should_stay_visible());
}

#[test]
fn wrapper_outcomes_drive_the_close_timer() {
    let mut c = TableAppendControls::new();
    let shown = c.set_table_append_row_hover_part(Some(true), None, None);
    assert_eq!(shown, HoverOutcome { changed: true, start_close_timer: false, cancel_close_timer: false });
    let left = c.set_table_append_row_hover_part(Some(false), None, None);
    assert_eq!(left, HoverOutcome { changed: true, start_close_timer: true, cancel_close_timer: false });
    let back = c.set_table_append_row_hover_part(None, None, Some(true));
    assert_eq!(back, HoverOutcome { changed: true, start_close_timer: false, cancel_close_timer: true });
    let col = c.set_table_append_column_hover_part(None, Some(false), None);
    assert_eq!(col, HoverOutcome { changed: false, start_close_timer: false, cancel_close_timer: false });
}
