use splitype_editor::delta::{DocDelta, Transaction};
use splitype_editor::undo::{UndoCaptureKind, UndoSelectionSnapshot};

type Tx = Transaction<String, String, String, u64>;

#[test]
fn test_transaction_inversion_roundtrip() {
    let block_id: u64 = 7;
    let t1 = "Hello".to_string();
    let t2 = "Hello World".to_string();

    let tx: Tx = Transaction::text_update(
        block_id,
        t1.clone(),
        t2.clone(),
        UndoSelectionSnapshot::default(),
        UndoSelectionSnapshot::default(),
        UndoCaptureKind::CoalescibleText,
    );

    let inverted = tx.clone().invert();
    assert_eq!(inverted.ops.len(), 1);
    match &inverted.ops[0] {
        DocDelta::UpdateBlockText {
            block_id: bid,
            old_text,
            new_text,
        } => {
            assert_eq!(*bid, block_id);
            assert_eq!(*old_text, t2);
            assert_eq!(*new_text, t1);
        }
        _ => panic!("unexpected op"),
    }

    let restored = inverted.invert();
    match &restored.ops[0] {
        DocDelta::UpdateBlockText {
            block_id: bid,
            old_text,
            new_text,
        } => {
            assert_eq!(*bid, block_id);
            assert_eq!(*old_text, t1);
            assert_eq!(*new_text, t2);
        }
        _ => panic!("unexpected op"),
    }
}

fn snapshot(start: usize, end: usize) -> UndoSelectionSnapshot {
    UndoSelectionSnapshot { range: start..end, reversed: false, block_anchor: None }
}

#[test]
fn invert_reverses_order_and_swaps_selections() {
    let ops: Vec<DocDelta<String, String, String, u64>> = vec![
        DocDelta::InsertBlock { index: 0, block: "a".to_string() },
        DocDelta::MoveBlock { from_index: 0, to_index: 2 },
        DocDelta::ReplaceBlock { index: 1, old_block: "x".to_string(), new_block: "y".to_string() },
    ];
    let tx: Tx = Transaction::new(ops, snapshot(1, 1), snapshot(4, 6), UndoCaptureKind::NonCoalescible);
    let inverted = tx.invert();
    assert_eq!(inverted.ops.len(), 3);
    match &inverted.ops[0] {
        DocDelta::ReplaceBlock { index, old_block, new_block } => {
            assert_eq!(*index, 1);
            assert_eq!(old_block, "y");
            assert_eq!(new_block, "x");
        }
        _ => panic!("unexpected op"),
    }
    match &inverted.ops[1] {
        DocDelta::MoveBlock { from_index, to_index } => {
            assert_eq!((*from_index, *to_index), (2, 0));
        }
        _ => panic!("unexpected op"),
    }
    match &inverted.ops[2] {
        DocDelta::RemoveBlock { index, old_block } => {
            assert_eq!(*index, 0);
            assert_eq!(old_block, "a");
        }
        _ => panic!("unexpected op"),
    }
    assert_eq!(inverted.selection_before.range, 4..6);
    assert_eq!(inverted.selection_after.range, 1..1);
    assert_eq!(inverted.kind, UndoCaptureKind::NonCoalescible);
}

#[test]
fn empty_transaction() {
    let tx: Tx = Transaction::empty();
    assert!(tx.is_empty());
    assert_eq!(tx.kind, UndoCaptureKind::NonCoalescible);
    assert_eq!(tx.selection_before.range, 0..0);
    let inverted = tx.invert();
    assert!(inverted.is_empty());
    let table: Tx = Transaction::new(
        vec![DocDelta::UpdateTable { block_id: 3, old_table: "t0".to_string(), new_table: "t1".to_string() }],
        snapshot(0, 0),
        snapshot(0, 0),
        UndoCaptureKind::NonCoalescible,
    );
    assert!(!table.is_empty());
    match &table.invert().ops[0] {
        DocDelta::UpdateTable { block_id, old_table, new_table } => {
            assert_eq!(*block_id, 3);
            assert_eq!(old_table, "t1");
            assert_eq!(new_table, "t0");
        }
        _ => panic!("unexpected op"),
    }
}
