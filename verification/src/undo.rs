//! Snapshot-based undo history: pending captures, coalescing of adjacent
//! typing, the history limit, and the undo/redo stepping.
//!
//! Each history entry holds the whole serialized document and the caret.
//! The editor captures entries (serializing the document is its business)
//! and hands them to [`UndoHistory`], which decides what is kept.

use std::ops::Range;
use std::time::{Duration, Instant};
use vstd::prelude::*;

verus! {

/// `std::time::Instant`, carried as an opaque timestamp.
#[verifier::external_type_specification]
#[verifier::external_body]
pub struct ExInstant(Instant);

/// `Instant::now`: the current time. Nothing is promised of the value.
pub assume_specification[ Instant::now ]() -> Instant;

/// `Instant::saturating_duration_since`: the time elapsed from `earlier`
/// to `self`, or zero. Nothing is promised of the opaque value.
pub assume_specification[ Instant::saturating_duration_since ](
    this: &Instant,
    earlier: Instant,
) -> Duration;

/// `Duration::as_nanos`: the whole duration in nanoseconds. The duration
/// is opaque here, so nothing is promised of the number.
pub assume_specification[ Duration::as_nanos ](this: &Duration) -> u128;

/// Most entries the undo stack keeps; the oldest entries are dropped.
pub const HISTORY_LIMIT: usize = 200;

/// Longest gap, in nanoseconds, between two typing captures that merge
/// into one undo step.
pub const HISTORY_COALESCE_WINDOW_NANOS: u128 = 1_000_000_000;

/// Undo coalescing category captured before a mutation.
#[derive(Debug, Clone, Copy, PartialEq, Eq, Structural)]
pub enum UndoCaptureKind {
    /// Text edits that may merge with adjacent typing within the coalescing
    /// window.
    CoalescibleText,
    /// Structural or discrete edits that always form their own undo entry.
    NonCoalescible,
}

/// A block-local selection captured as a path through the block tree.
#[derive(Debug)]
pub struct BlockSelectionAnchor {
    /// Root index followed by the sibling index of each child level.
    pub path: Vec<usize>,
    /// Current (projected) content range inside the anchored block.
    pub content_range: Range<usize>,
}

/// What a block anchor denotes: a tree path and a content range.
pub struct AnchorView {
    pub path: Seq<usize>,
    pub content_range: Range<usize>,
}

impl View for BlockSelectionAnchor {
    type V = AnchorView;

    open spec fn view(&self) -> AnchorView {
        AnchorView { path: self.path@, content_range: self.content_range }
    }
}

impl Clone for BlockSelectionAnchor {
    fn clone(&self) -> (r: Self)
        ensures
            r@ == self@,
    {
        let path = self.path.clone();
        assert(path@ =~= self.path@);
        BlockSelectionAnchor {
            path,
            content_range: Range { start: self.content_range.start, end: self.content_range.end },
        }
    }
}

/// Selection snapshot used by undo and redo to restore the caret.
#[derive(Debug)]
pub struct UndoSelectionSnapshot {
    /// Global source range (cross-block and source-mode selections).
    pub range: Range<usize>,
    pub reversed: bool,
    /// Block-local caret anchor, when the selection lives inside one block.
    pub block_anchor: Option<BlockSelectionAnchor>,
}

/// What a selection snapshot denotes.
pub struct SelectionView {
    pub range: Range<usize>,
    pub reversed: bool,
    pub block_anchor: Option<AnchorView>,
}

impl View for UndoSelectionSnapshot {
    type V = SelectionView;

    open spec fn view(&self) -> SelectionView {
        SelectionView {
            range: self.range,
            reversed: self.reversed,
            block_anchor: match self.block_anchor {
                Some(a) => Some(a@),
                None => None,
            },
        }
    }
}

impl Clone for UndoSelectionSnapshot {
    fn clone(&self) -> (r: Self)
        ensures
            r@ == self@,
    {
        let block_anchor = match &self.block_anchor {
            Some(anchor) => Some(anchor.clone()),
            None => None,
        };
        UndoSelectionSnapshot {
            range: Range { start: self.range.start, end: self.range.end },
            reversed: self.reversed,
            block_anchor,
        }
    }
}

impl Default for UndoSelectionSnapshot {
    /// A collapsed caret at offset `0`.
    fn default() -> (s: Self)
        ensures
            s@ == empty_selection(),
    {
        UndoSelectionSnapshot::empty()
    }
}

impl UndoSelectionSnapshot {
    /// A collapsed caret at offset `0`.
    pub fn empty() -> (s: Self)
        ensures
            s@ == empty_selection(),
    {
        UndoSelectionSnapshot { range: Range { start: 0, end: 0 }, reversed: false, block_anchor: None }
    }
}

/// One undo history entry: the serialized document and the caret.
#[derive(Debug)]
pub struct HistoryEntry {
    pub source_text: String,
    pub selection: UndoSelectionSnapshot,
    pub timestamp: Instant,
    pub kind: UndoCaptureKind,
}

/// What a history entry denotes: the document text, the caret, when it
/// was taken and how it coalesces.
pub struct EntryView {
    pub source: Seq<char>,
    pub selection: SelectionView,
    pub timestamp: Instant,
    pub kind: UndoCaptureKind,
}

impl View for HistoryEntry {
    type V = EntryView;

    open spec fn view(&self) -> EntryView {
        EntryView {
            source: self.source_text@,
            selection: self.selection@,
            timestamp: self.timestamp,
            kind: self.kind,
        }
    }
}

impl Clone for HistoryEntry {
    fn clone(&self) -> (r: Self)
        ensures
            r@ == self@,
    {
        HistoryEntry {
            source_text: self.source_text.clone(),
            selection: self.selection.clone(),
            timestamp: self.timestamp,
            kind: self.kind,
        }
    }
}

/// Deferred capture taken before a mutation, committed after it.
#[derive(Debug)]
pub struct PendingUndoCapture {
    pub snapshot: HistoryEntry,
}

/// Undo and redo stacks, the pending capture, and the last stable
/// snapshot of the document.
#[derive(Debug)]
pub struct UndoHistory {
    pub undo_entries: Vec<HistoryEntry>,
    pub redo_entries: Vec<HistoryEntry>,
    pub pending_capture: Option<PendingUndoCapture>,
    pub last_selection_snapshot: UndoSelectionSnapshot,
    pub last_stable_source_text: String,
    pub restore_in_progress: bool,
}

/// What the undo history denotes.
pub struct HistoryView {
    pub undo: Seq<EntryView>,
    pub redo: Seq<EntryView>,
    pub pending: Option<EntryView>,
    pub stable_selection: SelectionView,
    pub stable_source: Seq<char>,
    pub restoring: bool,
}

impl View for UndoHistory {
    type V = HistoryView;

    open spec fn view(&self) -> HistoryView {
        HistoryView {
            undo: self.undo_entries@.map_values(|e: HistoryEntry| e@),
            redo: self.redo_entries@.map_values(|e: HistoryEntry| e@),
            pending: match self.pending_capture {
                Some(p) => Some(p.snapshot@),
                None => None,
            },
            stable_selection: self.last_selection_snapshot@,
            stable_source: self.last_stable_source_text@,
            restoring: self.restore_in_progress,
        }
    }
}

/// Whether a capture of kind `pending` merges into a last undo entry of
/// kind `last` taken within the coalescing window (`within_window`).
pub open spec fn merges(pending: UndoCaptureKind, last: Option<UndoCaptureKind>, within_window: bool) -> bool {
    pending == UndoCaptureKind::CoalescibleText && last == Some(UndoCaptureKind::CoalescibleText)
        && within_window
}

/// `entries` with `e` pushed and the oldest entry dropped when the stack
/// would exceed the history limit.
pub open spec fn push_limited(entries: Seq<EntryView>, e: EntryView) -> Seq<EntryView> {
    if entries.len() + 1 > HISTORY_LIMIT {
        entries.push(e).subrange(1, entries.len() + 1 as int)
    } else {
        entries.push(e)
    }
}

/// The kind of the newest undo entry, if any.
pub open spec fn last_kind(entries: Seq<EntryView>) -> Option<UndoCaptureKind> {
    if entries.len() == 0 {
        None
    } else {
        Some(entries.last().kind)
    }
}

impl HistoryView {
    /// The stacks together never exceed the history limit.
    pub open spec fn wf(self) -> bool {
        self.undo.len() + self.redo.len() <= HISTORY_LIMIT
    }

    /// Whether a new capture may start.
    pub open spec fn can_capture(self) -> bool {
        !self.restoring && self.pending.is_none()
    }

    /// The history after offering `snapshot` as the pending capture.
    pub open spec fn after_prepare(self, snapshot: EntryView) -> HistoryView {
        if self.can_capture() {
            HistoryView { pending: Some(snapshot), ..self }
        } else {
            self
        }
    }

    /// The history with a new stable snapshot.
    pub open spec fn after_refresh(self, source: Seq<char>, selection: SelectionView) -> HistoryView {
        HistoryView { stable_source: source, stable_selection: selection, ..self }
    }

    /// The history after committing the pending capture against the
    /// current document `source` and caret `selection`. A capture whose
    /// text equals the current text records nothing; otherwise the redo
    /// stack is cleared and the capture is pushed unless it merges into the
    /// newest typing entry.
    pub open spec fn after_finalize(
        self,
        source: Seq<char>,
        selection: SelectionView,
        within_window: bool,
    ) -> HistoryView {
        if self.restoring {
            HistoryView { pending: None, ..self }
        } else {
            match self.pending {
                None => self.after_refresh(source, selection),
                Some(p) => if p.source == source {
                    HistoryView { pending: None, ..self }.after_refresh(source, selection)
                } else if merges(p.kind, last_kind(self.undo), within_window) {
                    HistoryView { pending: None, redo: Seq::empty(), ..self }.after_refresh(
                        source,
                        selection,
                    )
                } else {
                    HistoryView {
                        pending: None,
                        redo: Seq::empty(),
                        undo: push_limited(self.undo, p),
                        ..self
                    }.after_refresh(source, selection)
                },
            }
        }
    }

    /// The history after an undo step that saved `current` for redo, and
    /// the entry to restore.
    pub open spec fn after_undo(self, current: EntryView) -> (HistoryView, Option<EntryView>) {
        if self.undo.len() == 0 {
            (self, None)
        } else {
            (
                HistoryView {
                    undo: self.undo.drop_last(),
                    redo: self.redo.push(current),
                    pending: None,
                    restoring: true,
                    ..self
                },
                Some(self.undo.last()),
            )
        }
    }

    /// The history after a redo step that saved `current` for undo, and
    /// the entry to restore.
    pub open spec fn after_redo(self, current: EntryView) -> (HistoryView, Option<EntryView>) {
        if self.redo.len() == 0 {
            (self, None)
        } else {
            (
                HistoryView {
                    redo: self.redo.drop_last(),
                    undo: self.undo.push(current),
                    pending: None,
                    restoring: true,
                    ..self
                },
                Some(self.redo.last()),
            )
        }
    }

    /// The history once the restored document is in place: its text and
    /// caret become the stable snapshot and the restore is over.
    pub open spec fn after_restore(self, source: Seq<char>, selection: SelectionView) -> HistoryView {
        HistoryView { restoring: false, ..self.after_refresh(source, selection) }
    }
}

impl UndoHistory {
    /// Empty history whose stable snapshot is `source` with a caret at `0`.
    pub fn new(source: String) -> (h: Self)
        ensures
            h@.wf(),
            h@.undo.len() == 0,
            h@.redo.len() == 0,
            h@.pending.is_none(),
            h@.stable_source == source@,
            h@.stable_selection == empty_selection(),
            !h@.restoring,
    {
        let h = UndoHistory {
            undo_entries: Vec::new(),
            redo_entries: Vec::new(),
            pending_capture: None,
            last_selection_snapshot: UndoSelectionSnapshot::empty(),
            last_stable_source_text: source,
            restore_in_progress: false,
        };
        assert(h@.undo =~= Seq::<EntryView>::empty());
        assert(h@.redo =~= Seq::<EntryView>::empty());
        h
    }

    /// Whether a capture may start: no restore is running and no capture is
    /// pending.
    pub fn can_prepare_capture(&self) -> (b: bool)
        ensures
            b == self@.can_capture(),
    {
        !self.restore_in_progress && self.pending_capture.is_none()
    }

    /// Offers `snapshot`, taken before a mutation, as the pending capture;
    /// ignored while restoring or when a capture is already pending.
    pub fn prepare_undo_capture(&mut self, snapshot: HistoryEntry)
        ensures
            final(self)@ == old(self)@.after_prepare(snapshot@),
    {
        if self.restore_in_progress || self.pending_capture.is_some() {
            return;
        }
        self.pending_capture = Some(PendingUndoCapture { snapshot });
    }

    /// Takes the pending capture from the stable snapshot (its text and
    /// caret, stamped now), unless restoring or a capture is pending.
    pub fn prepare_undo_capture_from_stable_snapshot(&mut self, kind: UndoCaptureKind)
        ensures
            old(self)@.can_capture() ==> {
                &&& final(self)@.pending matches Some(p) && p.source == old(self)@.stable_source
                    && p.selection == old(self)@.stable_selection && p.kind == kind
                &&& final(self)@ == (HistoryView { pending: final(self)@.pending, ..old(self)@ })
            },
            !old(self)@.can_capture() ==> final(self)@ == old(self)@,
    {
        if self.restore_in_progress || self.pending_capture.is_some() {
            return;
        }
        let snapshot = HistoryEntry {
            source_text: self.last_stable_source_text.clone(),
            selection: self.last_selection_snapshot.clone(),
            timestamp: Instant::now(),
            kind,
        };
        self.pending_capture = Some(PendingUndoCapture { snapshot });
    }

    /// Records `source` and `selection` as the stable snapshot.
    pub fn refresh_stable_snapshot(&mut self, source: String, selection: UndoSelectionSnapshot)
        ensures
            final(self)@ == old(self)@.after_refresh(source@, selection@),
    {
        self.last_selection_snapshot = selection;
        self.last_stable_source_text = source;
    }

    /// Commits the pending capture against the current document text and
    /// caret. `within_window` tells whether the capture was taken within
    /// the coalescing window of the newest undo entry.
    pub fn finalize_pending_undo_capture_with(
        &mut self,
        current_source: String,
        current_selection: UndoSelectionSnapshot,
        within_window: bool,
    )
        ensures
            old(self)@.wf() ==> final(self)@.wf(),
            final(self)@ == old(self)@.after_finalize(
                current_source@,
                current_selection@,
                within_window,
            ),
    {
        if self.restore_in_progress {
            self.pending_capture = None;
            return;
        }
        let pending = match self.pending_capture.take() {
            Some(p) => p,
            None => {
                self.refresh_stable_snapshot(current_source, current_selection);
                return;
            },
        };
        if current_source == pending.snapshot.source_text {
            self.refresh_stable_snapshot(current_source, current_selection);
            return;
        }
        self.redo_entries.clear();
        let n = self.undo_entries.len();
        let last_coalescible = n > 0 && matches!(self.undo_entries[n - 1].kind, UndoCaptureKind::CoalescibleText);
        let should_merge = matches!(pending.snapshot.kind, UndoCaptureKind::CoalescibleText)
            && last_coalescible && within_window;
        assert(should_merge == merges(pending.snapshot@.kind, last_kind(old(self)@.undo), within_window));
        if !should_merge {
            let ghost before = self.undo_entries@;
            self.undo_entries.push(pending.snapshot);
            if self.undo_entries.len() > HISTORY_LIMIT {
                self.undo_entries.remove(0);
            }
            assert(self.undo_entries@.map_values(|e: HistoryEntry| e@) =~= push_limited(
                before.map_values(|e: HistoryEntry| e@),
                pending.snapshot@,
            ));
        }
        self.refresh_stable_snapshot(current_source, current_selection);
        assert(self@.redo =~= Seq::<EntryView>::empty());
    }

    /// Commits the pending capture against the current document text and
    /// caret, judging the coalescing window from the entries' timestamps.
    pub fn finalize_pending_undo_capture(
        &mut self,
        current_source: String,
        current_selection: UndoSelectionSnapshot,
    )
        ensures
            old(self)@.wf() ==> final(self)@.wf(),
            final(self)@ == old(self)@.after_finalize(current_source@, current_selection@, true)
                || final(self)@ == old(self)@.after_finalize(
                current_source@,
                current_selection@,
                false,
            ),
            !(old(self)@.pending matches Some(p) && p.kind == UndoCaptureKind::CoalescibleText
                && last_kind(old(self)@.undo) == Some(UndoCaptureKind::CoalescibleText))
                ==> final(self)@ == old(self)@.after_finalize(
                current_source@,
                current_selection@,
                false,
            ),
    {
        let n = self.undo_entries.len();
        let within_window = match &self.pending_capture {
            Some(pending) => {
                if n > 0 && matches!(pending.snapshot.kind, UndoCaptureKind::CoalescibleText)
                    && matches!(self.undo_entries[n - 1].kind, UndoCaptureKind::CoalescibleText) {
                    let gap = pending.snapshot.timestamp.saturating_duration_since(
                        self.undo_entries[n - 1].timestamp,
                    );
                    gap.as_nanos() <= HISTORY_COALESCE_WINDOW_NANOS
                } else {
                    false
                }
            },
            None => false,
        };
        self.finalize_pending_undo_capture_with(current_source, current_selection, within_window);
    }

    /// Steps back: pops the newest undo entry to restore, saves `current`
    /// (the document as it is now) for redo, drops any pending capture and
    /// marks a restore as running. Returns `None`, changing nothing, when
    /// there is nothing to undo.
    pub fn undo_document(&mut self, current: HistoryEntry) -> (r: Option<HistoryEntry>)
        ensures
            old(self)@.wf() ==> final(self)@.wf(),
            (final(self)@, match r {
                Some(e) => Some(e@),
                None => None,
            }) == old(self)@.after_undo(current@),
    {
        let ghost old_undo = self.undo_entries@;
        let ghost old_redo = self.redo_entries@;
        match self.undo_entries.pop() {
            None => None,
            Some(entry) => {
                self.pending_capture = None;
                self.restore_in_progress = true;
                self.redo_entries.push(current);
                assert(self.undo_entries@.map_values(|e: HistoryEntry| e@) =~= old_undo.map_values(
                    |e: HistoryEntry| e@,
                ).drop_last());
                assert(self.redo_entries@.map_values(|e: HistoryEntry| e@) =~= old_redo.map_values(
                    |e: HistoryEntry| e@,
                ).push(current@));
                Some(entry)
            },
        }
    }

    /// Steps forward: pops the newest redo entry to restore, saves
    /// `current` for undo, drops any pending capture and marks a restore as
    /// running. Returns `None`, changing nothing, when there is nothing to
    /// redo.
    pub fn redo_document(&mut self, current: HistoryEntry) -> (r: Option<HistoryEntry>)
        ensures
            old(self)@.wf() ==> final(self)@.wf(),
            (final(self)@, match r {
                Some(e) => Some(e@),
                None => None,
            }) == old(self)@.after_redo(current@),
    {
        let ghost old_undo = self.undo_entries@;
        let ghost old_redo = self.redo_entries@;
        match self.redo_entries.pop() {
            None => None,
            Some(entry) => {
                self.pending_capture = None;
                self.restore_in_progress = true;
                self.undo_entries.push(current);
                assert(self.redo_entries@.map_values(|e: HistoryEntry| e@) =~= old_redo.map_values(
                    |e: HistoryEntry| e@,
                ).drop_last());
                assert(self.undo_entries@.map_values(|e: HistoryEntry| e@) =~= old_undo.map_values(
                    |e: HistoryEntry| e@,
                ).push(current@));
                Some(entry)
            },
        }
    }

    /// Ends a restore: the restored document's text and caret become the
    /// stable snapshot.
    pub fn finish_restore(&mut self, source: String, selection: UndoSelectionSnapshot)
        ensures
            final(self)@ == old(self)@.after_restore(source@, selection@),
    {
        self.refresh_stable_snapshot(source, selection);
        self.restore_in_progress = false;
    }
}

/// The collapsed caret at offset `0`.
pub open spec fn empty_selection() -> SelectionView {
    SelectionView { range: Range { start: 0, end: 0 }, reversed: false, block_anchor: None }
}
/// Whether source `offset` lies in `range`; an empty range contains only
/// its own position, a non-empty one both of its ends.
pub open spec fn range_contains(range: Range<usize>, offset: usize) -> bool {
    if range.start == range.end {
        offset == range.start
    } else {
        range.start <= offset <= range.end
    }
}

/// Whether source `offset` lies in `range` (ends included).
pub fn source_range_contains(range: &Range<usize>, offset: usize) -> (b: bool)
    ensures
        b == range_contains(*range, offset),
{
    if range.start == range.end {
        offset == range.start
    } else {
        offset >= range.start && offset <= range.end
    }
}

/// Distance from `offset` to `range`: `0` inside it, else the gap to the
/// nearer end (`0` when the range is reversed and `offset` lies after its
/// start and before its end).
pub open spec fn offset_distance(range: Range<usize>, offset: usize) -> nat {
    if range_contains(range, offset) {
        0
    } else if offset < range.start {
        (range.start - offset) as nat
    } else if offset > range.end {
        (offset - range.end) as nat
    } else {
        0
    }
}

/// Distance from source `offset` to `range`.
pub fn source_offset_distance(range: &Range<usize>, offset: usize) -> (d: usize)
    ensures
        d == offset_distance(*range, offset),
{
    if source_range_contains(range, offset) {
        0
    } else if offset < range.start {
        range.start - offset
    } else if offset > range.end {
        offset - range.end
    } else {
        0
    }
}


/// Redo right after undo gives back the document the undo replaced, and
/// leaves the redo stack as it was before the undo.
pub proof fn lemma_undo_then_redo_returns_replaced(
    v: HistoryView,
    before_undo: EntryView,
    restored_source: Seq<char>,
    restored_selection: SelectionView,
    before_redo: EntryView,
)
    requires
        v.undo.len() > 0,
    ensures
        ({
            let (v1, r1) = v.after_undo(before_undo);
            let (v2, r2) = v1.after_restore(restored_source, restored_selection).after_redo(
                before_redo,
            );
            &&& r1 == Some(v.undo.last())
            &&& r2 == Some(before_undo)
            &&& v2.redo == v.redo
            &&& v2.undo == v.undo.drop_last().push(before_redo)
        }),
{
    let (v1, r1) = v.after_undo(before_undo);
    assert(v1.redo.drop_last() =~= v.redo);
}

/// Undo right after redo gives back the document the redo replaced, and
/// leaves the undo stack as it was before the redo.
pub proof fn lemma_redo_then_undo_returns_replaced(
    v: HistoryView,
    before_redo: EntryView,
    restored_source: Seq<char>,
    restored_selection: SelectionView,
    before_undo: EntryView,
)
    requires
        v.redo.len() > 0,
    ensures
        ({
            let (v1, r1) = v.after_redo(before_redo);
            let (v2, r2) = v1.after_restore(restored_source, restored_selection).after_undo(
                before_undo,
            );
            &&& r1 == Some(v.redo.last())
            &&& r2 == Some(before_redo)
            &&& v2.undo == v.undo
            &&& v2.redo == v.redo.drop_last().push(before_undo)
        }),
{
    let (v1, r1) = v.after_redo(before_redo);
    assert(v1.undo.drop_last() =~= v.undo);
}

/// Committing a capture whose text equals the current text records no
/// undo step and keeps the redo stack.
pub proof fn lemma_unchanged_text_records_nothing(
    v: HistoryView,
    source: Seq<char>,
    selection: SelectionView,
    within_window: bool,
)
    requires
        v.pending matches Some(p) && p.source == source,
    ensures
        v.after_finalize(source, selection, within_window).undo == v.undo,
        v.after_finalize(source, selection, within_window).redo == v.redo,
        v.after_finalize(source, selection, within_window).pending.is_none(),
{
}

/// A committed edit clears the redo stack and, unless it merges into the
/// newest typing step, becomes the newest undo entry.
pub proof fn lemma_edit_clears_redo_and_records(
    v: HistoryView,
    source: Seq<char>,
    selection: SelectionView,
    within_window: bool,
)
    requires
        !v.restoring,
        v.pending matches Some(p) && p.source != source,
    ensures
        v.after_finalize(source, selection, within_window).redo.len() == 0,
        !merges(v.pending->0.kind, last_kind(v.undo), within_window) ==> v.after_finalize(
            source,
            selection,
            within_window,
        ).undo.last() == v.pending->0,
        merges(v.pending->0.kind, last_kind(v.undo), within_window) ==> v.after_finalize(
            source,
            selection,
            within_window,
        ).undo == v.undo,
{
}

/// Every step keeps the two stacks within the history limit.
pub proof fn lemma_steps_keep_history_limit(
    v: HistoryView,
    current: EntryView,
    source: Seq<char>,
    selection: SelectionView,
    within_window: bool,
)
    requires
        v.wf(),
    ensures
        v.after_prepare(current).wf(),
        v.after_finalize(source, selection, within_window).wf(),
        v.after_undo(current).0.wf(),
        v.after_redo(current).0.wf(),
        v.after_restore(source, selection).wf(),
{
}

} // verus!
