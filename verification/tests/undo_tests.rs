use splitype_editor::undo::{
    source_offset_distance, source_range_contains, HistoryEntry, UndoCaptureKind, UndoHistory,
    UndoSelectionSnapshot, HISTORY_LIMIT,
};
use std::time::Instant;

fn caret(offset: usize) -> UndoSelectionSnapshot {
    UndoSelectionSnapshot { range: offset..offset, reversed: false, block_anchor: None }
}

fn entry(text: &str, kind: UndoCaptureKind) -> HistoryEntry {
    HistoryEntry {
        source_text: text.to_string(),
        selection: caret(text.len()),
        timestamp: Instant::now(),
        kind,
    }
}

/// One edit from `before` to `after`, captured and committed.
fn edit(history: &mut UndoHistory, before: &str, after: &str, kind: UndoCaptureKind, within: bool) {
    history.prepare_undo_capture(entry(before, kind));
    history.finalize_pending_undo_capture_with(after.to_string(), caret(after.len()), within);
}

#[test]
fn edit_records_entry_and_clears_redo() {
    let mut history = UndoHistory::new("a".to_string());
    edit(&mut history, "a", "ab", UndoCaptureKind::NonCoalescible, false);
    assert_eq!(history.undo_entries.len(), 1);
    assert_eq!(history.undo_entries[0].source_text, "a");
    assert_eq!(history.last_stable_source_text, "ab");
    assert!(history.pending_capture.is_none());

    let restored = history.undo_document(entry("ab", UndoCaptureKind::NonCoalescible));
    assert_eq!(restored.map(|e| e.source_text), Some("a".to_string()));
    history.finish_restore("a".to_string(), caret(1));
    assert_eq!(history.redo_entries.len(), 1);

    edit(&mut history, "a", "ac", UndoCaptureKind::NonCoalescible, false);
    assert!(history.redo_entries.is_empty());
    assert_eq!(history.undo_entries.len(), 1);
}

#[test]
fn unchanged_text_records_nothing() {
    let mut history = UndoHistory::new("same".to_string());
    history.prepare_undo_capture(entry("same", UndoCaptureKind::NonCoalescible));
    history.finalize_pending_undo_capture_with("same".to_string(), caret(2), false);
    assert!(history.undo_entries.is_empty());
    assert!(history.pending_capture.is_none());
    assert_eq!(history.last_selection_snapshot.range, 2..2);
}

#[test]
fn typing_within_window_merges() {
    let mut history = UndoHistory::new(String::new());
    edit(&mut history, "", "h", UndoCaptureKind::CoalescibleText, false);
    edit(&mut history, "h", "he", UndoCaptureKind::CoalescibleText, true);
    edit(&mut history, "he", "hey", UndoCaptureKind::CoalescibleText, true);
    assert_eq!(history.undo_entries.len(), 1);
    edit(&mut history, "hey", "hey!", UndoCaptureKind::CoalescibleText, false);
    assert_eq!(history.undo_entries.len(), 2);
    edit(&mut history, "hey!", "", UndoCaptureKind::NonCoalescible, true);
    assert_eq!(history.undo_entries.len(), 3);
}

#[test]
fn finalize_with_clock_merges_quick_typing() {
    let mut history = UndoHistory::new(String::new());
    history.prepare_undo_capture(entry("", UndoCaptureKind::CoalescibleText));
    history.finalize_pending_undo_capture("a".to_string(), caret(1));
    history.prepare_undo_capture(entry("a", UndoCaptureKind::CoalescibleText));
    history.finalize_pending_undo_capture("ab".to_string(), caret(2));
    assert_eq!(history.undo_entries.len(), 1);
    history.prepare_undo_capture(entry("ab", UndoCaptureKind::NonCoalescible));
    history.finalize_pending_undo_capture("abc".to_string(), caret(3));
    assert_eq!(history.undo_entries.len(), 2);
}

#[test]
fn undo_then_redo_returns_replaced_document() {
    let mut history = UndoHistory::new("one".to_string());
    edit(&mut history, "one", "two", UndoCaptureKind::NonCoalescible, false);
    let back = history.undo_document(entry("two", UndoCaptureKind::NonCoalescible)).unwrap();
    assert_eq!(back.source_text, "one");
    assert!(history.restore_in_progress);
    history.finish_restore("one".to_string(), caret(3));
    assert!(!history.restore_in_progress);
    let forward = history.redo_document(entry("one", UndoCaptureKind::NonCoalescible)).unwrap();
    assert_eq!(forward.source_text, "two");
    history.finish_restore("two".to_string(), caret(3));
    assert_eq!(history.undo_entries.len(), 1);
    assert_eq!(history.undo_entries[0].source_text, "one");
    assert!(history.redo_entries.is_empty());
}

#[test]
fn undo_and_redo_on_empty_stacks_change_nothing() {
    let mut history = UndoHistory::new("x".to_string());
    assert!(history.undo_document(entry("x", UndoCaptureKind::NonCoalescible)).is_none());
    assert!(history.redo_document(entry("x", UndoCaptureKind::NonCoalescible)).is_none());
    assert!(!history.restore_in_progress);
    assert!(history.redo_entries.is_empty());
}

#[test]
fn capture_is_ignored_while_restoring_or_pending() {
    let mut history = UndoHistory::new("x".to_string());
    assert!(history.can_prepare_capture());
    history.prepare_undo_capture(entry("first", UndoCaptureKind::NonCoalescible));
    assert!(!history.can_prepare_capture());
    history.prepare_undo_capture(entry("second", UndoCaptureKind::NonCoalescible));
    assert_eq!(history.pending_capture.as_ref().map(|p| p.snapshot.source_text.clone()), Some("first".to_string()));
    history.restore_in_progress = true;
    history.finalize_pending_undo_capture_with("y".to_string(), caret(0), false);
    assert!(history.pending_capture.is_none());
    assert!(history.undo_entries.is_empty());
}

#[test]
fn stable_snapshot_capture() {
    let mut history = UndoHistory::new("base".to_string());
    history.refresh_stable_snapshot("stable".to_string(), caret(4));
    history.prepare_undo_capture_from_stable_snapshot(UndoCaptureKind::CoalescibleText);
    let pending = history.pending_capture.as_ref().unwrap();
    assert_eq!(pending.snapshot.source_text, "stable");
    assert_eq!(pending.snapshot.selection.range, 4..4);
    assert_eq!(pending.snapshot.kind, UndoCaptureKind::CoalescibleText);
}

#[test]
fn history_keeps_the_newest_entries_within_limit() {
    let mut history = UndoHistory::new("0".to_string());
    for i in 0..(HISTORY_LIMIT + 5) {
        let before = i.to_string();
        let after = (i + 1).to_string();
        edit(&mut history, &before, &after, UndoCaptureKind::NonCoalescible, false);
    }
    assert_eq!(history.undo_entries.len(), HISTORY_LIMIT);
    assert_eq!(history.undo_entries[0].source_text, "5");
    assert_eq!(history.undo_entries[HISTORY_LIMIT - 1].source_text, (HISTORY_LIMIT + 4).to_string());
}

#[test]
fn source_range_contains_and_distance() {
    assert!(source_range_contains(&(3..3), 3));
    assert!(!source_range_contains(&(3..3), 4));
    assert!(source_range_contains(&(2..5), 2));
    assert!(source_range_contains(&(2..5), 5));
    assert!(!source_range_contains(&(2..5), 6));
    assert_eq!(source_offset_distance(&(10..20), 15), 0);
    assert_eq!(source_offset_distance(&(10..20), 4), 6);
    assert_eq!(source_offset_distance(&(10..20), 27), 7);
    assert_eq!(source_offset_distance(&(10..10), 12), 2);
}

#[test]
fn default_selection_is_caret_at_zero() {
    let s = UndoSelectionSnapshot::default();
    assert_eq!(s.range, 0..0);
    assert!(!s.reversed);
    assert!(s.block_anchor.is_none());
    let e = UndoSelectionSnapshot::empty();
    assert_eq!(e.range, 0..0);
}
