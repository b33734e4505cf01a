use splitype_editor::table_axis::{vertical_cell_target, VerticalCellMove};
use splitype_editor::table_axis::horizontal_cell_target;
use splitype_editor::table_axis::{
    can_delete_body_row, can_delete_column, focus_column_after_column_delete,
    focus_row_after_row_delete, table_axis_index_valid, table_axis_move_target, TableAxis,
};

#[test]
fn axis_moves_stay_on_the_table() {
    assert_eq!(table_axis_move_target(2, 1, 4), Some(3));
    assert_eq!(table_axis_move_target(3, 1, 4), None);
    assert_eq!(table_axis_move_target(0, -1, 4), None);
    assert_eq!(table_axis_move_target(2, -2, 4), Some(0));
    assert_eq!(table_axis_move_target(usize::MAX, 1, usize::MAX), None);
    assert_eq!(table_axis_move_target(1, i32::MIN, 4), None);
}

#[test]
fn axis_selections_name_existing_rows_and_columns() {
    // Three columns, two body rows: visual rows 0 (header), 1 and 2.
    assert!(table_axis_index_valid(TableAxis::Column, 2, 3, 2));
    assert!(!table_axis_index_valid(TableAxis::Column, 3, 3, 2));
    assert!(table_axis_index_valid(TableAxis::Row, 0, 3, 2));
    assert!(table_axis_index_valid(TableAxis::Row, 2, 3, 2));
    assert!(!table_axis_index_valid(TableAxis::Row, 3, 3, 2));
}

#[test]
fn deletions_need_an_existing_target_and_a_column_to_spare() {
    assert!(can_delete_body_row(1, 2));
    assert!(!can_delete_body_row(2, 2));
    assert!(can_delete_column(0, 2));
    assert!(!can_delete_column(0, 1));
    assert!(!can_delete_column(2, 2));
}

#[test]
fn focus_after_a_row_delete_lands_on_a_remaining_row() {
    // Deleting body row 0 of three leaves two; focus the new first body row.
    assert_eq!(focus_row_after_row_delete(0, 2), 1);
    // Deleting the last body row focuses the new last body row.
    assert_eq!(focus_row_after_row_delete(2, 2), 2);
    // Deleting the only body row falls back to the header.
    assert_eq!(focus_row_after_row_delete(0, 0), 0);
}

#[test]
fn focus_after_a_column_delete_lands_on_a_remaining_column() {
    assert_eq!(focus_column_after_column_delete(1, 3), 1);
    assert_eq!(focus_column_after_column_delete(3, 3), 2);
    assert_eq!(focus_column_after_column_delete(0, 1), 0);
}

#[test]
fn cell_moves_in_reading_order_wrap_rows_and_stop_at_the_ends() {
    // Two columns, one body row: cells (0,0) (0,1) (1,0) (1,1).
    assert_eq!(horizontal_cell_target(0, 1, 1, 2, 1), Some((1, 0)));
    assert_eq!(horizontal_cell_target(1, 0, -1, 2, 1), Some((0, 1)));
    assert_eq!(horizontal_cell_target(1, 1, 1, 2, 1), None);
    assert_eq!(horizontal_cell_target(0, 0, -1, 2, 1), None);
    assert_eq!(horizontal_cell_target(0, 0, 1, 0, 1), None);
    assert_eq!(horizontal_cell_target(usize::MAX, usize::MAX, i32::MAX, usize::MAX, usize::MAX), None);
}

#[test]
fn vertical_cell_moves_keep_the_column_or_leave_the_table() {
    assert_eq!(vertical_cell_target(0, 1, 1, 3, 2), VerticalCellMove::Cell { row: 1, column: 1 });
    assert_eq!(vertical_cell_target(2, 5, -1, 3, 2), VerticalCellMove::Cell { row: 1, column: 2 });
    assert_eq!(vertical_cell_target(2, 0, 1, 3, 2), VerticalCellMove::LeaveTable { down: true });
    assert_eq!(vertical_cell_target(0, 0, -1, 3, 2), VerticalCellMove::LeaveTable { down: false });
}
