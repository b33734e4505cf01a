//! Atomic document deltas and reversible editing transactions.
//!
//! A [`Transaction`] groups the deltas of one user action with the caret
//! before and after it; [`Transaction::invert`] builds the exact reverse
//! action. The payloads (block data, block text, table data and block ids)
//! are carried as given.

use crate::undo::{UndoCaptureKind, UndoSelectionSnapshot};
use std::time::Instant;
use vstd::prelude::*;

verus! {

/// Atomic mutation of the document block tree.
#[derive(Debug)]
pub enum DocDelta<Block, Text, Table, Id> {
    /// Insert a new block at `index`.
    InsertBlock { index: usize, block: Block },
    /// Remove the block at `index`.
    RemoveBlock { index: usize, old_block: Block },
    /// Replace the block at `index` with new data.
    ReplaceBlock { index: usize, old_block: Block, new_block: Block },
    /// Update the text of one block by its stable id.
    UpdateBlockText { block_id: Id, old_text: Text, new_text: Text },
    /// Update the native table structure and contents of a table block.
    UpdateTable { block_id: Id, old_table: Table, new_table: Table },
    /// Move a block from `from_index` to `to_index`.
    MoveBlock { from_index: usize, to_index: usize },
}

/// Whether `b` is a copy of `a`: the same variant, the same indices, and
/// each payload a clone of `a`'s.
pub open spec fn delta_cloned<Block: Clone, Text: Clone, Table: Clone, Id: Clone>(
    a: DocDelta<Block, Text, Table, Id>,
    b: DocDelta<Block, Text, Table, Id>,
) -> bool {
    match (a, b) {
        (DocDelta::InsertBlock { index: i, block: x }, DocDelta::InsertBlock { index: j, block: y }) => i == j
            && cloned(x, y),
        (
            DocDelta::RemoveBlock { index: i, old_block: x },
            DocDelta::RemoveBlock { index: j, old_block: y },
        ) => i == j && cloned(x, y),
        (
            DocDelta::ReplaceBlock { index: i, old_block: x1, new_block: x2 },
            DocDelta::ReplaceBlock { index: j, old_block: y1, new_block: y2 },
        ) => i == j && cloned(x1, y1) && cloned(x2, y2),
        (
            DocDelta::UpdateBlockText { block_id: i, old_text: x1, new_text: x2 },
            DocDelta::UpdateBlockText { block_id: j, old_text: y1, new_text: y2 },
        ) => cloned(i, j) && cloned(x1, y1) && cloned(x2, y2),
        (
            DocDelta::UpdateTable { block_id: i, old_table: x1, new_table: x2 },
            DocDelta::UpdateTable { block_id: j, old_table: y1, new_table: y2 },
        ) => cloned(i, j) && cloned(x1, y1) && cloned(x2, y2),
        (
            DocDelta::MoveBlock { from_index: f1, to_index: t1 },
            DocDelta::MoveBlock { from_index: f2, to_index: t2 },
        ) => f1 == f2 && t1 == t2,
        _ => false,
    }
}

impl<Block: Clone, Text: Clone, Table: Clone, Id: Clone> Clone for DocDelta<Block, Text, Table, Id> {
    /// The same delta, its payloads cloned.
    fn clone(&self) -> (r: Self)
        ensures
            delta_cloned(*self, r),
    {
        match self {
            DocDelta::InsertBlock { index, block } => DocDelta::InsertBlock { index: *index, block: block.clone() },
            DocDelta::RemoveBlock { index, old_block } => DocDelta::RemoveBlock {
                index: *index,
                old_block: old_block.clone(),
            },
            DocDelta::ReplaceBlock { index, old_block, new_block } => DocDelta::ReplaceBlock {
                index: *index,
                old_block: old_block.clone(),
                new_block: new_block.clone(),
            },
            DocDelta::UpdateBlockText { block_id, old_text, new_text } => DocDelta::UpdateBlockText {
                block_id: block_id.clone(),
                old_text: old_text.clone(),
                new_text: new_text.clone(),
            },
            DocDelta::UpdateTable { block_id, old_table, new_table } => DocDelta::UpdateTable {
                block_id: block_id.clone(),
                old_table: old_table.clone(),
                new_table: new_table.clone(),
            },
            DocDelta::MoveBlock { from_index, to_index } => DocDelta::MoveBlock {
                from_index: *from_index,
                to_index: *to_index,
            },
        }
    }
}

/// The delta that undoes `d`.
pub open spec fn inverse_delta<Block, Text, Table, Id>(d: DocDelta<Block, Text, Table, Id>) -> DocDelta<
    Block,
    Text,
    Table,
    Id,
> {
    match d {
        DocDelta::InsertBlock { index, block } => DocDelta::RemoveBlock { index, old_block: block },
        DocDelta::RemoveBlock { index, old_block } => DocDelta::InsertBlock { index, block: old_block },
        DocDelta::ReplaceBlock { index, old_block, new_block } => DocDelta::ReplaceBlock {
            index,
            old_block: new_block,
            new_block: old_block,
        },
        DocDelta::UpdateBlockText { block_id, old_text, new_text } => DocDelta::UpdateBlockText {
            block_id,
            old_text: new_text,
            new_text: old_text,
        },
        DocDelta::UpdateTable { block_id, old_table, new_table } => DocDelta::UpdateTable {
            block_id,
            old_table: new_table,
            new_table: old_table,
        },
        DocDelta::MoveBlock { from_index, to_index } => DocDelta::MoveBlock {
            from_index: to_index,
            to_index: from_index,
        },
    }
}

/// The deltas that undo `ops`: each one inverted, in reverse order.
pub open spec fn inverse_ops<Block, Text, Table, Id>(
    ops: Seq<DocDelta<Block, Text, Table, Id>>,
) -> Seq<DocDelta<Block, Text, Table, Id>> {
    Seq::new(ops.len(), |i: int| inverse_delta(ops[ops.len() - 1 - i]))
}

/// The deltas of one user action with the caret before and after it.
#[derive(Debug)]
pub struct Transaction<Block, Text, Table, Id> {
    /// Atomic operations, in execution order.
    pub ops: Vec<DocDelta<Block, Text, Table, Id>>,
    /// Selection before the transaction was applied.
    pub selection_before: UndoSelectionSnapshot,
    /// Selection after the transaction was applied.
    pub selection_after: UndoSelectionSnapshot,
    /// Creation time, for the coalescing window.
    pub timestamp: Instant,
    /// Capture category (coalescible typing or structural edit).
    pub kind: UndoCaptureKind,
}

impl<Block: Clone, Text: Clone, Table: Clone, Id: Clone> Clone for Transaction<Block, Text, Table, Id> {
    /// A copy of the deltas, the selections, the stamp and the kind.
    fn clone(&self) -> (r: Self)
        ensures
            r.ops@.len() == self.ops@.len(),
            forall|i: int| 0 <= i < self.ops@.len() ==> #[trigger] delta_cloned(self.ops@[i], r.ops@[i]),
            r.selection_before@ == self.selection_before@,
            r.selection_after@ == self.selection_after@,
            r.timestamp == self.timestamp,
            r.kind == self.kind,
    {
        Transaction {
            ops: self.ops.clone(),
            selection_before: self.selection_before.clone(),
            selection_after: self.selection_after.clone(),
            timestamp: self.timestamp,
            kind: self.kind,
        }
    }
}

fn inverse_delta_exec<Block, Text, Table, Id>(d: DocDelta<Block, Text, Table, Id>) -> (r: DocDelta<
    Block,
    Text,
    Table,
    Id,
>)
    ensures
        r == inverse_delta(d),
{
    match d {
        DocDelta::InsertBlock { index, block } => DocDelta::RemoveBlock { index, old_block: block },
        DocDelta::RemoveBlock { index, old_block } => DocDelta::InsertBlock { index, block: old_block },
        DocDelta::ReplaceBlock { index, old_block, new_block } => DocDelta::ReplaceBlock {
            index,
            old_block: new_block,
            new_block: old_block,
        },
        DocDelta::UpdateBlockText { block_id, old_text, new_text } => DocDelta::UpdateBlockText {
            block_id,
            old_text: new_text,
            new_text: old_text,
        },
        DocDelta::UpdateTable { block_id, old_table, new_table } => DocDelta::UpdateTable {
            block_id,
            old_table: new_table,
            new_table: old_table,
        },
        DocDelta::MoveBlock { from_index, to_index } => DocDelta::MoveBlock {
            from_index: to_index,
            to_index: from_index,
        },
    }
}

impl<Block, Text, Table, Id> Transaction<Block, Text, Table, Id> {
    /// A transaction of `ops` stamped now.
    pub fn new(
        ops: Vec<DocDelta<Block, Text, Table, Id>>,
        selection_before: UndoSelectionSnapshot,
        selection_after: UndoSelectionSnapshot,
        kind: UndoCaptureKind,
    ) -> (t: Self)
        ensures
            t.ops@ == ops@,
            t.selection_before@ == selection_before@,
            t.selection_after@ == selection_after@,
            t.kind == kind,
    {
        Transaction { ops, selection_before, selection_after, timestamp: Instant::now(), kind }
    }

    /// A transaction with no operations, empty selections, and a
    /// non-coalescible kind.
    pub fn empty() -> (t: Self)
        ensures
            t.ops@.len() == 0,
            t.selection_before@ == crate::undo::empty_selection(),
            t.selection_after@ == crate::undo::empty_selection(),
            t.kind == UndoCaptureKind::NonCoalescible,
    {
        Transaction {
            ops: Vec::new(),
            selection_before: UndoSelectionSnapshot::empty(),
            selection_after: UndoSelectionSnapshot::empty(),
            timestamp: Instant::now(),
            kind: UndoCaptureKind::NonCoalescible,
        }
    }

    /// Whether the transaction has no operations.
    pub fn is_empty(&self) -> (b: bool)
        ensures
            b == (self.ops@.len() == 0),
    {
        self.ops.len() == 0
    }

    /// A transaction updating the text of one block.
    pub fn text_update(
        block_id: Id,
        old_text: Text,
        new_text: Text,
        selection_before: UndoSelectionSnapshot,
        selection_after: UndoSelectionSnapshot,
        kind: UndoCaptureKind,
    ) -> (t: Self)
        ensures
            t.ops@ == seq![DocDelta::<Block, Text, Table, Id>::UpdateBlockText { block_id, old_text, new_text }],
            t.selection_before@ == selection_before@,
            t.selection_after@ == selection_after@,
            t.kind == kind,
    {
        let mut ops = Vec::new();
        ops.push(DocDelta::UpdateBlockText { block_id, old_text, new_text });
        assert(ops@ =~= seq![DocDelta::<Block, Text, Table, Id>::UpdateBlockText { block_id, old_text, new_text }]);
        Self::new(ops, selection_before, selection_after, kind)
    }

    /// The exact reverse transaction: inverted deltas in reverse order,
    /// selections exchanged, same kind, stamped now.
    pub fn invert(self) -> (t: Self)
        ensures
            t.ops@ == inverse_ops(self.ops@),
            t.selection_before@ == self.selection_after@,
            t.selection_after@ == self.selection_before@,
            t.kind == self.kind,
    {
        let ghost ops_before = self.ops@;
        let mut remaining = self.ops;
        let mut inverted: Vec<DocDelta<Block, Text, Table, Id>> = Vec::new();
        while remaining.len() > 0
            invariant
                remaining@ == ops_before.subrange(0, remaining@.len() as int),
                remaining@.len() <= ops_before.len(),
                inverted@.len() + remaining@.len() == ops_before.len(),
                forall|i: int|
                    0 <= i < inverted@.len() ==> #[trigger] inverted@[i] == inverse_delta(
                        ops_before[ops_before.len() - 1 - i],
                    ),
            decreases remaining@.len(),
        {
            let op = remaining.pop().unwrap();
            inverted.push(inverse_delta_exec(op));
        }
        assert(inverted@ =~= inverse_ops(ops_before));
        Transaction {
            ops: inverted,
            selection_before: self.selection_after,
            selection_after: self.selection_before,
            timestamp: Instant::now(),
            kind: self.kind,
        }
    }
}

/// Inverting a delta twice gives it back.
pub proof fn lemma_inverse_delta_involution<Block, Text, Table, Id>(d: DocDelta<Block, Text, Table, Id>)
    ensures
        inverse_delta(inverse_delta(d)) == d,
{
}

/// Inverting a transaction's deltas twice gives them back, in order.
pub proof fn lemma_invert_twice_restores<Block, Text, Table, Id>(
    ops: Seq<DocDelta<Block, Text, Table, Id>>,
)
    ensures
        inverse_ops(inverse_ops(ops)) == ops,
{
    assert forall|i: int| 0 <= i < ops.len() implies #[trigger] inverse_ops(inverse_ops(ops))[i]
        == ops[i] by {
        lemma_inverse_delta_involution(ops[i]);
    }
    assert(inverse_ops(inverse_ops(ops)) =~= ops);
}


} // verus!
