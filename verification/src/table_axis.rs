//! Rows and columns of a table as the editor selects, moves and deletes
//! them. Rows are counted visually: row `0` is the header, rows `1` to
//! `n` are the `n` body rows.

use vstd::prelude::*;

verus! {

/// A table axis.
#[derive(Clone, Copy, Debug, PartialEq, Eq, Structural)]
pub enum TableAxis {
    Row,
    Column,
}

/// Whether visual index `index` on `axis` names a row or column of a table
/// with `columns` columns and `body_rows` body rows.
pub open spec fn axis_index_exists(axis: TableAxis, index: nat, columns: nat, body_rows: nat) -> bool {
    match axis {
        TableAxis::Column => index < columns,
        TableAxis::Row => index <= body_rows,
    }
}

/// Whether a selection of visual index `index` on `axis` still names a row
/// or column of a table with `columns` columns and `body_rows` body rows.
pub fn table_axis_index_valid(axis: TableAxis, index: usize, columns: usize, body_rows: usize) -> (b: bool)
    ensures
        b == axis_index_exists(axis, index as nat, columns as nat, body_rows as nat),
{
    match axis {
        TableAxis::Column => index < columns,
        TableAxis::Row => index <= body_rows,
    }
}

/// The visual index `delta` steps from `index` on a table axis of `count`
/// rows or columns, if it exists.
pub fn table_axis_move_target(index: usize, delta: i32, count: usize) -> (target: Option<usize>)
    ensures
        target == if 0 <= index + delta < count {
            Some((index + delta) as usize)
        } else {
            None
        },
{
    let next = if delta < 0 {
        let back = (0i64 - delta as i64) as u64;
        if (index as u64) < back {
            return None;
        }
        ((index as u64) - back) as usize
    } else {
        let forward = delta as usize;
        if index > usize::MAX - forward {
            return None;
        }
        index + forward
    };
    if next >= count {
        return None;
    }
    Some(next)
}

/// Whether body row `row_index` of a table with `body_rows` body rows can
/// be deleted: it must exist.
pub fn can_delete_body_row(row_index: usize, body_rows: usize) -> (b: bool)
    ensures
        b == (row_index < body_rows),
{
    row_index < body_rows
}

/// Whether column `column` of a table with `columns` columns can be
/// deleted: it must exist, and it must not be the last column left.
pub fn can_delete_column(column: usize, columns: usize) -> (b: bool)
    ensures
        b == (columns > 1 && column < columns),
{
    columns > 1 && column < columns
}

/// The visual row that takes the focus once body row `row_index` has been
/// deleted and `remaining` body rows are left: the body row now at that
/// place, or the last body row, or the header when no body row is left.
pub open spec fn row_focus(row_index: nat, remaining: nat) -> nat {
    if remaining == 0 {
        0
    } else if row_index < remaining {
        row_index + 1
    } else {
        remaining
    }
}

/// The column that takes the focus once column `column` has been deleted
/// and `remaining` columns are left: the column now at that place, or the
/// last column.
pub open spec fn column_focus(column: nat, remaining: nat) -> nat {
    if column < remaining {
        column
    } else if remaining == 0 {
        0
    } else {
        (remaining - 1) as nat
    }
}

/// The visual row that takes the focus once body row `row_index` has been
/// deleted and `remaining_body_rows` body rows are left.
pub fn focus_row_after_row_delete(row_index: usize, remaining_body_rows: usize) -> (row: usize)
    ensures
        row == row_focus(row_index as nat, remaining_body_rows as nat),
{
    if remaining_body_rows == 0 {
        0
    } else {
        let last = remaining_body_rows - 1;
        (if row_index < last { row_index } else { last }) + 1
    }
}

/// The column that takes the focus once column `column` has been deleted
/// and `remaining_columns` columns are left.
pub fn focus_column_after_column_delete(column: usize, remaining_columns: usize) -> (focus: usize)
    ensures
        focus == column_focus(column as nat, remaining_columns as nat),
{
    let last = if remaining_columns == 0 { 0 } else { remaining_columns - 1 };
    if column < last { column } else { last }
}

/// After a body row that could be deleted is deleted, the focus lands on a
/// row that still exists, and on a body row whenever one is left.
pub proof fn lemma_row_delete_focus_exists(row_index: nat, body_rows: nat, columns: nat)
    requires
        row_index < body_rows,
    ensures
        axis_index_exists(
            TableAxis::Row,
            row_focus(row_index, (body_rows - 1) as nat),
            columns,
            (body_rows - 1) as nat,
        ),
        body_rows > 1 ==> row_focus(row_index, (body_rows - 1) as nat) >= 1,
{
}

/// After body row `row_index` of `rows` is deleted, the focus (a visual
/// row: 0 is the header, `k + 1` is body row `k`) lands on the body row
/// that followed the deleted one, now in its place; when the last body row
/// was deleted, on the row that preceded it; and on the header when no
/// body row is left.
pub proof fn lemma_row_delete_focus_follows<A>(rows: Seq<A>, row_index: nat)
    requires
        row_index < rows.len(),
    ensures
        ({
            let left = rows.remove(row_index as int);
            let f = row_focus(row_index, left.len());
            &&& left.len() == 0 ==> f == 0
            &&& left.len() > 0 ==> 1 <= f <= left.len()
            &&& row_index + 1 < rows.len() ==> f == row_index + 1 && left[f - 1] == rows[row_index + 1int]
            &&& row_index + 1 == rows.len() && row_index > 0 ==> f == row_index && left[f - 1]
                == rows[row_index - 1int]
        }),
{
}

/// After a column that could be deleted is deleted, the focus lands on a
/// column that still exists.
pub proof fn lemma_column_delete_focus_exists(column: nat, columns: nat, body_rows: nat)
    requires
        columns > 1,
        column < columns,
    ensures
        axis_index_exists(
            TableAxis::Column,
            column_focus(column, (columns - 1) as nat),
            (columns - 1) as nat,
            body_rows,
        ),
{
}

/// A move that has a target lands on a row or column that exists.
pub proof fn lemma_move_target_exists(axis: TableAxis, index: int, delta: int, columns: nat, body_rows: nat)
    requires
        0 <= index + delta < (match axis {
            TableAxis::Column => columns as int,
            TableAxis::Row => body_rows + 1int,
        }),
    ensures
        axis_index_exists(axis, (index + delta) as nat, columns, body_rows),
{
}

/// The cell `delta` cells after cell (`row`, `column`) in reading order
/// (rows left to right, the header row first), in a table of `columns`
/// columns and `body_rows` body rows: none past either end, and none in a
/// table without columns.
pub open spec fn horizontal_cell(row: nat, column: nat, delta: int, columns: nat, body_rows: nat) -> Option<(nat, nat)> {
    let next = row * columns + column + delta;
    if columns == 0 || next < 0 || next >= (body_rows + 1) * columns {
        None
    } else {
        Some(((next / columns as int) as nat, (next % columns as int) as nat))
    }
}

/// Where a vertical move from a table cell goes.
#[derive(Clone, Copy, Debug, PartialEq, Eq, Structural)]
pub enum VerticalCellMove {
    /// To the cell in visual row `row` and column `column`.
    Cell { row: usize, column: usize },
    /// Out of the table, to the block below (`down`) or above it.
    LeaveTable { down: bool },
}

/// Where a move of `delta` rows from cell (`row`, `column`) goes in a
/// table of `columns` columns and `body_rows` body rows: past the header
/// or the last row it leaves the table; otherwise it keeps the column, as
/// far as the table has one.
pub open spec fn vertical_cell(row: nat, column: nat, delta: int, columns: nat, body_rows: nat) -> VerticalCellMove {
    let next = row + delta;
    if next < 0 || next > body_rows {
        VerticalCellMove::LeaveTable { down: delta >= 0 }
    } else {
        VerticalCellMove::Cell {
            row: next as usize,
            column: (if column < columns {
                column as int
            } else if columns == 0 {
                0
            } else {
                columns - 1
            }) as usize,
        }
    }
}

/// The cell a move of `delta` cells in reading order reaches from cell
/// (`row`, `column`); see `horizontal_cell`.
pub fn horizontal_cell_target(row: usize, column: usize, delta: i32, columns: usize, body_rows: usize) -> (target: Option<
    (usize, usize),
>)
    ensures
        match target {
            Some((r, c)) => horizontal_cell(row as nat, column as nat, delta as int, columns as nat, body_rows as nat)
                == Some((r as nat, c as nat)),
            None => horizontal_cell(row as nat, column as nat, delta as int, columns as nat, body_rows as nat)
                is None,
        },
{
    if columns == 0 {
        return None;
    }
    let cols = columns as u128;
    proof {
        assert(row * columns <= usize::MAX * usize::MAX) by (nonlinear_arith)
            requires
                row <= usize::MAX,
                columns <= usize::MAX,
        ;
        assert((body_rows + 1) * columns <= (usize::MAX + 1) * usize::MAX) by (nonlinear_arith)
            requires
                body_rows <= usize::MAX,
                columns <= usize::MAX,
        ;
    }
    let linear = (row as u128) * cols + (column as u128);
    let total = ((body_rows as u128) + 1) * cols;
    let next = if delta < 0 {
        let back = (0i64 - delta as i64) as u128;
        if linear < back {
            return None;
        }
        linear - back
    } else {
        linear + (delta as u128)
    };
    if next >= total {
        return None;
    }
    let r = next / cols;
    let c = next % cols;
    proof {
        assert(r * cols <= next) by (nonlinear_arith)
            requires
                r == next / cols,
                cols > 0,
        ;
        assert(r < body_rows + 1) by (nonlinear_arith)
            requires
                r == next / cols,
                cols > 0,
                next < (body_rows + 1) * cols,
        ;
    }
    Some((r as usize, c as usize))
}

/// Where a move of `delta` rows from cell (`row`, `column`) goes; see
/// `vertical_cell`.
pub fn vertical_cell_target(row: usize, column: usize, delta: i32, columns: usize, body_rows: usize) -> (m: VerticalCellMove)
    ensures
        m == vertical_cell(row as nat, column as nat, delta as int, columns as nat, body_rows as nat),
{
    let next: i128 = row as i128 + delta as i128;
    if next < 0 || next > body_rows as i128 {
        return VerticalCellMove::LeaveTable { down: delta >= 0 };
    }
    let last = if columns == 0 {
        0
    } else {
        columns - 1
    };
    VerticalCellMove::Cell { row: next as usize, column: if column < last { column } else { last } }
}

/// A move in reading order that reaches a cell reaches one that exists.
pub proof fn lemma_horizontal_cell_exists(row: nat, column: nat, delta: int, columns: nat, body_rows: nat)
    requires
        horizontal_cell(row, column, delta, columns, body_rows) is Some,
    ensures
        ({
            let (r, c) = horizontal_cell(row, column, delta, columns, body_rows).unwrap();
            &&& axis_index_exists(TableAxis::Row, r, columns, body_rows)
            &&& axis_index_exists(TableAxis::Column, c, columns, body_rows)
        }),
{
    let next = row * columns + column + delta;
    let r = next / columns as int;
    assert(r < body_rows + 1) by (nonlinear_arith)
        requires
            columns > 0,
            0 <= next < (body_rows + 1) * columns,
            r == next / columns as int,
    ;
}

/// A vertical move that stays in the table reaches a row that exists, and
/// a column that exists whenever the table has columns.
pub proof fn lemma_vertical_cell_exists(row: nat, column: nat, delta: int, columns: nat, body_rows: nat)
    requires
        vertical_cell(row, column, delta, columns, body_rows) is Cell,
    ensures
        ({
            let m = vertical_cell(row, column, delta, columns, body_rows);
            &&& axis_index_exists(TableAxis::Row, m->row as nat, columns, body_rows)
            &&& columns > 0 ==> axis_index_exists(TableAxis::Column, m->column as nat, columns, body_rows)
        }),
{
}

} // verus!
