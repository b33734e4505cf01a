//! The structure edits of the block editor: toggling a task, indenting,
//! outdenting, turning a nested list item into a paragraph, and deleting a
//! block.
//!
//! The document is held as its blocks in reading order (a pre-order walk of
//! the block tree), each with its nesting depth: a block's children are the
//! deeper blocks that follow it, up to the next block that is not deeper.

use vstd::prelude::*;

verus! {

/// What a block is, as far as structure edits look at it.
#[derive(Clone, Copy, Debug, PartialEq, Eq, Structural)]
pub enum BlockKind {
    Paragraph,
    Heading,
    BulletListItem,
    OrderedListItem,
    TaskListItem { checked: bool },
    Blockquote,
    Callout,
    CodeBlock,
    Table,
    ThematicBreak,
    Other,
}

/// Whether a block kind is a list item.
pub open spec fn is_list_item(kind: BlockKind) -> bool {
    ||| kind is BulletListItem
    ||| kind is OrderedListItem
    ||| kind is TaskListItem
}

/// One block of the document: its id, its kind and its nesting depth.
#[derive(Clone, Copy, Debug, PartialEq, Eq, Structural)]
pub struct BlockEntry {
    pub id: u64,
    pub kind: BlockKind,
    pub depth: usize,
}

/// A structure edit requested by a block.
#[derive(Clone, Copy, Debug, PartialEq, Eq, Structural)]
pub enum StructureAction {
    /// Check or uncheck a task list item.
    ToggleTaskChecked,
    /// Nest the block under the block before it; `nests_under_previous`
    /// says whether the block's kind may nest under that block's kind.
    Indent { nests_under_previous: bool },
    /// Lift the block out one level; a top-level block becomes a paragraph.
    Outdent,
    /// Turn a list item nested in a list item into a paragraph.
    DowngradeNestedListItem,
    /// Delete the block; its children take its place. `text_empty` says
    /// whether the block holds no text.
    Delete { text_empty: bool },
    /// Enter in the block: a new block `new_id` of kind `new_kind` follows
    /// it (and its subtree) as its next sibling.
    Newline { new_id: u64, new_kind: BlockKind },
    /// Enter at the start of the block: a new empty paragraph `new_id`
    /// comes just before it, as its previous sibling.
    NewlineAbove { new_id: u64 },
    /// Backspace at the start of the block: its text joins the block
    /// before it, which adopts its children, and the block goes.
    MergeIntoPrevious,
    /// Start a new quote group after the nearest quote or callout around
    /// the block: a new empty quote `quote_id`, after an empty separator
    /// paragraph `separator_id` when that quote is nested.
    QuoteBreak { separator_id: u64, quote_id: u64 },
    /// Leave the outermost run of quotes and callouts around the block for
    /// a new empty paragraph `paragraph_id` after it, after an empty
    /// separator paragraph `separator_id` when that run is nested.
    CalloutBreak { separator_id: u64, paragraph_id: u64 },
    /// Enter on a callout's header: the focus goes to the callout's first
    /// child, after an empty paragraph `body_id` is added as that child
    /// when the callout has none.
    EnterCalloutBody { body_id: u64 },
}

/// Whether a block kind holds a quote group.
pub open spec fn is_quote_container(kind: BlockKind) -> bool {
    kind is Blockquote || kind is Callout
}

/// The nearest of block `j` and its ancestors that is a quote or callout,
/// or `-1`.
pub open spec fn nearest_quote(s: Seq<BlockEntry>, j: int) -> int
    decreases j + 1,
{
    if j < 0 || j >= s.len() {
        -1
    } else if is_quote_container(s[j].kind) {
        j
    } else {
        let p = parent_index(s, j);
        if 0 <= p < j {
            nearest_quote(s, p)
        } else {
            -1
        }
    }
}

/// The outermost quote or callout reached from quote `q` through parents
/// that are quotes or callouts.
pub open spec fn topmost_quote(s: Seq<BlockEntry>, q: int) -> int
    decreases q + 1,
{
    let p = parent_index(s, q);
    if 0 <= q < s.len() && 0 <= p < q && is_quote_container(s[p].kind) {
        topmost_quote(s, p)
    } else {
        q
    }
}

/// The blocks with the blocks `new` inserted after the subtree of block
/// `q`, at its depth.
pub open spec fn after_subtree(s: Seq<BlockEntry>, q: int, new: Seq<BlockEntry>) -> Seq<BlockEntry> {
    let end = subtree_end(s, q);
    s.subrange(0, end) + new + s.subrange(end, s.len() as int)
}

/// An empty paragraph `id` at depth `depth`.
pub open spec fn paragraph_at(id: u64, depth: usize) -> BlockEntry {
    BlockEntry { id, kind: BlockKind::Paragraph, depth }
}

/// What a structure edit asks of the editor around the document.
#[derive(Clone, Copy, Debug, PartialEq, Eq, Structural)]
pub struct EditEffect {
    /// The document changed: an undo step is recorded and the document
    /// is marked dirty.
    pub changed: bool,
    /// The block that takes the focus, if the focus moves.
    pub focus: Option<u64>,
}

/// Block `k` is at most one level deeper than the block before it.
pub open spec fn step_ok(s: Seq<BlockEntry>, k: int) -> bool {
    s[k].depth <= s[k - 1].depth + 1
}

/// Each block is at most one level deeper than the block before it.
pub open spec fn steps_ok(s: Seq<BlockEntry>) -> bool {
    forall|k: int| 0 < k < s.len() ==> #[trigger] step_ok(s, k)
}

/// A well-formed outline: the first block is at the top level, and each
/// block is at most one level deeper than the block before it.
pub open spec fn outline_wf(s: Seq<BlockEntry>) -> bool {
    &&& s.len() > 0 ==> s[0].depth == 0
    &&& steps_ok(s)
}

/// The blocks with their depths moved by `delta`.
pub open spec fn shifted(s: Seq<BlockEntry>, delta: int) -> Seq<BlockEntry> {
    s.map_values(|e: BlockEntry| BlockEntry { depth: (e.depth + delta) as usize, ..e })
}

/// The end of the subtree of block `i`, scanning from `j`.
pub open spec fn subtree_end_from(s: Seq<BlockEntry>, i: int, j: int) -> int
    decreases s.len() - j,
{
    if j >= s.len() {
        s.len() as int
    } else if s[j].depth <= s[i].depth {
        j
    } else {
        subtree_end_from(s, i, j + 1)
    }
}

/// The end of the subtree of block `i`: the first later block that is
/// not deeper, or the end of the document.
pub open spec fn subtree_end(s: Seq<BlockEntry>, i: int) -> int {
    subtree_end_from(s, i, i + 1)
}

/// The last block before `j + 1` that is shallower than block `i`, or
/// `-1`.
pub open spec fn last_shallower_from(s: Seq<BlockEntry>, i: int, j: int) -> int
    decreases j + 1,
{
    if j < 0 {
        -1
    } else if s[j].depth < s[i].depth {
        j
    } else {
        last_shallower_from(s, i, j - 1)
    }
}

/// The parent of block `i`: the last earlier block that is shallower.
pub open spec fn parent_index(s: Seq<BlockEntry>, i: int) -> int {
    last_shallower_from(s, i, i - 1)
}

/// Block `e` with kind `kind`.
pub open spec fn with_kind(e: BlockEntry, kind: BlockKind) -> BlockEntry {
    BlockEntry { kind, ..e }
}

/// Whether deleting block `i`, whose text is empty when `text_empty`,
/// turns its parent callout into a quote: the block is an empty paragraph
/// without children and the callout's only child.
pub open spec fn empties_callout(s: Seq<BlockEntry>, i: int, text_empty: bool) -> bool {
    &&& 0 < i < s.len()
    &&& s[i - 1].kind == BlockKind::Callout
    &&& s[i].depth == s[i - 1].depth + 1
    &&& s[i].kind == BlockKind::Paragraph
    &&& text_empty
    &&& (i + 1 == s.len() || s[i + 1].depth <= s[i - 1].depth)
}

/// The document and the effect after structure edit `a` on block `i` of
/// `s`:
/// - a task is checked or unchecked, and the edit is recorded even when
///   the block is no task;
/// - indenting makes the block (with its subtree) the child of the block
///   before it, unless it is the first block, may not nest there, or is
///   that block's child already;
/// - outdenting moves the block (with its subtree) to just after its
///   parent's subtree, one level up; a top-level block becomes a
///   paragraph;
/// - a list item nested in a list item becomes a paragraph in place;
/// - deleting the empty paragraph that is the only content of a callout
///   turns the callout into a quote and focuses it;
/// - deleting the only block leaves it as a paragraph; otherwise the
///   block goes, its children move up one level into its place, and the
///   focus goes to the block before it, or else the block after it;
/// - merging into the block before removes the block and focuses the block
///   before, which adopts the children after its own (the editor appends
///   the text); the first block merges into nothing;
/// - a new line adds a sibling after the block's subtree and focuses it;
///   a new line above adds an empty paragraph before the block, whose
///   focus stays;
/// - a quote break adds a new empty quote after the nearest quote or
///   callout around the block (an empty paragraph first when that one is
///   nested) and focuses it; a callout break adds an empty paragraph after
///   the outermost run of quotes and callouts (another one first when that
///   run is nested) and focuses it; with no quote around, nothing happens;
/// - entering a callout's body focuses its first child, adding an empty
///   paragraph as that child when it has none; other blocks ignore it.
/// An index out of the document changes nothing.
pub open spec fn structure_outcome(s: Seq<BlockEntry>, i: int, a: StructureAction) -> (Seq<BlockEntry>, EditEffect) {
    let unchanged = EditEffect { changed: false, focus: None };
    if !(0 <= i < s.len()) {
        (s, unchanged)
    } else {
        let e = s[i];
        match a {
            StructureAction::ToggleTaskChecked => (
                match e.kind {
                    BlockKind::TaskListItem { checked } => s.update(
                        i,
                        with_kind(e, BlockKind::TaskListItem { checked: !checked }),
                    ),
                    _ => s,
                },
                EditEffect { changed: true, focus: None },
            ),
            StructureAction::Indent { nests_under_previous } => {
                if i == 0 || !nests_under_previous || e.depth == s[i - 1].depth + 1 {
                    (s, unchanged)
                } else {
                    let end = subtree_end(s, i);
                    (
                        s.subrange(0, i) + shifted(s.subrange(i, end), s[i - 1].depth + 1 - e.depth)
                            + s.subrange(end, s.len() as int),
                        EditEffect { changed: true, focus: Some(e.id) },
                    )
                }
            },
            StructureAction::Outdent => {
                if e.depth == 0 {
                    (s.update(i, with_kind(e, BlockKind::Paragraph)), EditEffect { changed: true, focus: Some(e.id) })
                } else {
                    let p = parent_index(s, i);
                    let ei = subtree_end(s, i);
                    let ep = subtree_end(s, p);
                    (
                        s.subrange(0, i) + s.subrange(ei, ep) + shifted(s.subrange(i, ei), -1)
                            + s.subrange(ep, s.len() as int),
                        EditEffect { changed: true, focus: Some(e.id) },
                    )
                }
            },
            StructureAction::DowngradeNestedListItem => {
                if e.depth == 0 || !is_list_item(e.kind) || !is_list_item(s[parent_index(s, i)].kind) {
                    (s, unchanged)
                } else {
                    (s.update(i, with_kind(e, BlockKind::Paragraph)), EditEffect { changed: true, focus: Some(e.id) })
                }
            },
            StructureAction::Delete { text_empty } => {
                if empties_callout(s, i, text_empty) {
                    (
                        s.update(i - 1, with_kind(s[i - 1], BlockKind::Blockquote)).remove(i),
                        EditEffect { changed: true, focus: Some(s[i - 1].id) },
                    )
                } else if s.len() == 1 {
                    if e.kind == BlockKind::Paragraph {
                        (s, EditEffect { changed: false, focus: Some(e.id) })
                    } else {
                        (s.update(i, with_kind(e, BlockKind::Paragraph)), EditEffect { changed: true, focus: Some(e.id) })
                    }
                } else {
                    let end = subtree_end(s, i);
                    let focus = if i > 0 { s[i - 1].id } else { s[i + 1].id };
                    (
                        s.subrange(0, i) + shifted(s.subrange(i + 1, end), -1) + s.subrange(end, s.len() as int),
                        EditEffect { changed: true, focus: Some(focus) },
                    )
                }
            },
            StructureAction::Newline { new_id, new_kind } => {
                let end = subtree_end(s, i);
                (
                    s.subrange(0, end).push(BlockEntry { id: new_id, kind: new_kind, depth: e.depth })
                        + s.subrange(end, s.len() as int),
                    EditEffect { changed: true, focus: Some(new_id) },
                )
            },
            StructureAction::MergeIntoPrevious => {
                if i == 0 {
                    (s, unchanged)
                } else {
                    let prev = s[i - 1];
                    let ei = subtree_end(s, i);
                    let effect = EditEffect { changed: true, focus: Some(prev.id) };
                    if e.depth == prev.depth + 1 {
                        let ep = subtree_end(s, i - 1);
                        (
                            s.subrange(0, i) + s.subrange(ei, ep) + shifted(s.subrange(i + 1, ei), -1)
                                + s.subrange(ep, s.len() as int),
                            effect,
                        )
                    } else {
                        (
                            s.subrange(0, i) + shifted(s.subrange(i + 1, ei), prev.depth - e.depth)
                                + s.subrange(ei, s.len() as int),
                            effect,
                        )
                    }
                }
            },
            StructureAction::QuoteBreak { separator_id, quote_id } => {
                let q = nearest_quote(s, i);
                if q < 0 {
                    (s, unchanged)
                } else {
                    let d = s[q].depth;
                    let quote = BlockEntry { id: quote_id, kind: BlockKind::Blockquote, depth: d };
                    let new = if d == 0 {
                        seq![quote]
                    } else {
                        seq![paragraph_at(separator_id, d), quote]
                    };
                    (after_subtree(s, q, new), EditEffect { changed: true, focus: Some(quote_id) })
                }
            },
            StructureAction::CalloutBreak { separator_id, paragraph_id } => {
                let q = nearest_quote(s, i);
                if q < 0 {
                    (s, unchanged)
                } else {
                    let t = topmost_quote(s, q);
                    let d = s[t].depth;
                    let new = if d == 0 {
                        seq![paragraph_at(paragraph_id, d)]
                    } else {
                        seq![paragraph_at(separator_id, d), paragraph_at(paragraph_id, d)]
                    };
                    (after_subtree(s, t, new), EditEffect { changed: true, focus: Some(paragraph_id) })
                }
            },
            StructureAction::EnterCalloutBody { body_id } => {
                if e.kind != BlockKind::Callout {
                    (s, unchanged)
                } else if i + 1 < s.len() && s[i + 1].depth > e.depth {
                    (s, EditEffect { changed: false, focus: Some(s[i + 1].id) })
                } else {
                    (
                        s.subrange(0, i + 1).push(paragraph_at(body_id, (e.depth + 1) as usize))
                            + s.subrange(i + 1, s.len() as int),
                        EditEffect { changed: true, focus: Some(body_id) },
                    )
                }
            },
            StructureAction::NewlineAbove { new_id } => (
                s.subrange(0, i).push(BlockEntry { id: new_id, kind: BlockKind::Paragraph, depth: e.depth })
                    + s.subrange(i, s.len() as int),
                EditEffect { changed: true, focus: Some(e.id) },
            ),
        }
    }
}

// ---------------------------------------------------------------------
// Facts about outlines.
// ---------------------------------------------------------------------

/// Depth grows by at most one per block.
proof fn lemma_depth_chain(s: Seq<BlockEntry>, a: int, b: int)
    requires
        steps_ok(s),
        0 <= a <= b < s.len(),
    ensures
        s[b].depth <= s[a].depth + (b - a),
    decreases b - a,
{
    if b > a {
        lemma_depth_chain(s, a, b - 1);
        assert(step_ok(s, b));
    }
}

/// The subtree of `i`, scanned from `j`, ends where the first block that
/// is not deeper stands.
proof fn lemma_subtree_end_from(s: Seq<BlockEntry>, i: int, j: int)
    requires
        0 <= i < j <= s.len(),
        forall|k: int| i < k < j ==> #[trigger] s[k].depth > s[i].depth,
    ensures
        j <= subtree_end_from(s, i, j) <= s.len(),
        forall|k: int| i < k < subtree_end_from(s, i, j) ==> #[trigger] s[k].depth > s[i].depth,
        subtree_end_from(s, i, j) < s.len() ==> s[subtree_end_from(s, i, j)].depth <= s[i].depth,
    decreases s.len() - j,
{
    if j < s.len() && s[j].depth > s[i].depth {
        lemma_subtree_end_from(s, i, j + 1);
    }
}

/// The subtree of `i` runs from `i` to `subtree_end(s, i)`: every block in
/// it but `i` is deeper, and the block after it is not.
proof fn lemma_subtree_end(s: Seq<BlockEntry>, i: int)
    requires
        0 <= i < s.len(),
    ensures
        i < subtree_end(s, i) <= s.len(),
        forall|k: int| i < k < subtree_end(s, i) ==> #[trigger] s[k].depth > s[i].depth,
        subtree_end(s, i) < s.len() ==> s[subtree_end(s, i)].depth <= s[i].depth,
{
    lemma_subtree_end_from(s, i, i + 1);
}

/// The last shallower block before `j + 1`.
proof fn lemma_last_shallower_from(s: Seq<BlockEntry>, i: int, j: int)
    requires
        outline_wf(s),
        0 <= i < s.len(),
        -1 <= j < i,
        forall|k: int| j < k < i ==> #[trigger] s[k].depth >= s[i].depth,
    ensures
        -1 <= last_shallower_from(s, i, j) <= j,
        forall|k: int| last_shallower_from(s, i, j) < k < i ==> #[trigger] s[k].depth >= s[i].depth,
        last_shallower_from(s, i, j) >= 0 ==> s[last_shallower_from(s, i, j)].depth < s[i].depth,
        s[i].depth > 0 ==> last_shallower_from(s, i, j) >= 0 && s[last_shallower_from(s, i, j)].depth + 1
            == s[i].depth,
    decreases j + 1,
{
    if j >= 0 && s[j].depth >= s[i].depth {
        lemma_last_shallower_from(s, i, j - 1);
    } else if j >= 0 {
        assert(step_ok(s, j + 1));
        assert(s[j + 1].depth >= s[i].depth);
    } else {
        if s[i].depth > 0 {
            assert(i > 0);
            assert(s[0].depth >= s[i].depth);
        }
    }
}

/// The parent of a nested block: the last earlier block one level up;
/// the blocks between are at least as deep as the block, and the parent's
/// subtree holds the block's subtree.
proof fn lemma_parent(s: Seq<BlockEntry>, i: int)
    requires
        outline_wf(s),
        0 <= i < s.len(),
        s[i].depth > 0,
    ensures
        0 <= parent_index(s, i) < i,
        s[parent_index(s, i)].depth + 1 == s[i].depth,
        forall|k: int| parent_index(s, i) < k < i ==> #[trigger] s[k].depth >= s[i].depth,
        subtree_end(s, i) <= subtree_end(s, parent_index(s, i)),
{
    lemma_last_shallower_from(s, i, i - 1);
    let p = parent_index(s, i);
    lemma_subtree_end(s, i);
    lemma_subtree_end(s, p);
    let ei = subtree_end(s, i);
    let ep = subtree_end(s, p);
    if ep < ei {
        assert(ep > p);
        if ep < i {
            assert(s[ep].depth >= s[i].depth);
        } else if ep == i {
        } else {
            assert(s[ep].depth > s[i].depth);
        }
    }
}

/// Steps within a part of an outline are steps of the outline.
proof fn lemma_steps_sub(s: Seq<BlockEntry>, x: int, y: int)
    requires
        steps_ok(s),
        0 <= x <= y <= s.len(),
    ensures
        steps_ok(s.subrange(x, y)),
{
    let t = s.subrange(x, y);
    assert forall|k: int| 0 < k < t.len() implies #[trigger] step_ok(t, k) by {
        assert(t[k] == s[x + k]);
        assert(t[k - 1] == s[x + k - 1]);
        assert(step_ok(s, x + k));
    }
}

/// Two runs of steps joined at a step are one run of steps.
proof fn lemma_steps_concat(a: Seq<BlockEntry>, b: Seq<BlockEntry>)
    requires
        steps_ok(a),
        steps_ok(b),
        a.len() > 0 && b.len() > 0 ==> b[0].depth <= a[a.len() - 1].depth + 1,
    ensures
        steps_ok(a + b),
{
    let c = a + b;
    assert forall|k: int| 0 < k < c.len() implies #[trigger] step_ok(c, k) by {
        if k < a.len() {
            assert(c[k] == a[k]);
            assert(c[k - 1] == a[k - 1]);
            assert(step_ok(a, k));
        } else if k == a.len() {
            assert(c[k] == b[0]);
            assert(c[k - 1] == a[a.len() - 1]);
        } else {
            assert(c[k] == b[k - a.len()]);
            assert(c[k - 1] == b[k - 1 - a.len()]);
            assert(step_ok(b, k - a.len()));
        }
    }
}

/// Moving every depth by the same amount keeps the steps.
proof fn lemma_steps_shift(s: Seq<BlockEntry>, delta: int)
    requires
        steps_ok(s),
        forall|k: int| 0 <= k < s.len() ==> 0 <= #[trigger] s[k].depth + delta <= usize::MAX,
    ensures
        steps_ok(shifted(s, delta)),
        shifted(s, delta).len() == s.len(),
        forall|k: int| 0 <= k < s.len() ==> #[trigger] shifted(s, delta)[k].depth == s[k].depth + delta,
{
    let t = shifted(s, delta);
    assert forall|k: int| 0 <= k < s.len() implies #[trigger] t[k].depth == s[k].depth + delta by {
        assert(0 <= s[k].depth + delta <= usize::MAX);
    }
    assert forall|k: int| 0 < k < t.len() implies #[trigger] step_ok(t, k) by {
        assert(t[k].depth == s[k].depth + delta);
        assert(t[k - 1].depth == s[k - 1].depth + delta);
        assert(step_ok(s, k));
    }
}

/// Every structure edit keeps the document a well-formed outline.
pub proof fn lemma_outcome_keeps_outline(s: Seq<BlockEntry>, i: int, a: StructureAction)
    requires
        outline_wf(s),
        s.len() <= usize::MAX,
    ensures
        outline_wf(structure_outcome(s, i, a).0),
{
    let r = structure_outcome(s, i, a).0;
    if !(0 <= i < s.len()) {
        return;
    }
    let e = s[i];
    let n = s.len() as int;
    match a {
        StructureAction::ToggleTaskChecked | StructureAction::DowngradeNestedListItem => {
            assert forall|k: int| 0 < k < r.len() implies #[trigger] step_ok(r, k) by {
                assert(r[k].depth == s[k].depth);
                assert(r[k - 1].depth == s[k - 1].depth);
                assert(step_ok(s, k));
            }
            if r.len() > 0 {
                assert(r[0].depth == s[0].depth);
            }
        },
        StructureAction::Indent { nests_under_previous } => {
            if !(i == 0 || !nests_under_previous || e.depth == s[i - 1].depth + 1) {
                lemma_indent_keeps_outline(s, i);
            }
        },
        StructureAction::Outdent => {
            if e.depth == 0 {
                assert forall|k: int| 0 < k < r.len() implies #[trigger] step_ok(r, k) by {
                    assert(r[k].depth == s[k].depth);
                    assert(r[k - 1].depth == s[k - 1].depth);
                    assert(step_ok(s, k));
                }
                assert(r[0].depth == s[0].depth);
            } else {
                lemma_outdent_keeps_outline(s, i);
            }
        },
        StructureAction::Delete { text_empty } => {
            if empties_callout(s, i, text_empty) {
                assert forall|k: int| 0 < k < r.len() implies #[trigger] step_ok(r, k) by {
                    if k < i - 1 {
                        assert(step_ok(s, k));
                    } else if k == i - 1 {
                        assert(step_ok(s, k));
                    } else if k == i {
                        assert(r[k] == s[i + 1]);
                        assert(r[k - 1].depth == s[i - 1].depth);
                    } else {
                        assert(r[k] == s[k + 1]);
                        assert(r[k - 1] == s[k]);
                        assert(step_ok(s, k + 1));
                    }
                }
                if i - 1 == 0 {
                    assert(r[0].depth == s[0].depth);
                } else {
                    assert(r[0] == s[0]);
                }
            } else if s.len() == 1 {
                assert(r[0].depth == s[0].depth);
                assert(steps_ok(r));
            } else {
                lemma_delete_keeps_outline(s, i);
            }
        },
        StructureAction::Newline { new_id, new_kind } => {
            lemma_subtree_end(s, i);
            let end = subtree_end(s, i);
            let x = BlockEntry { id: new_id, kind: new_kind, depth: e.depth };
            lemma_insert_keeps_outline(s, end, x);
        },
        StructureAction::MergeIntoPrevious => {
            if i > 0 {
                lemma_merge_keeps_outline(s, i);
            }
        },
        StructureAction::QuoteBreak { separator_id, quote_id } => {
            lemma_nearest_quote(s, i);
            let q = nearest_quote(s, i);
            if q >= 0 {
                let d = s[q].depth;
                let quote = BlockEntry { id: quote_id, kind: BlockKind::Blockquote, depth: d };
                let new = if d == 0 {
                    seq![quote]
                } else {
                    seq![paragraph_at(separator_id, d), quote]
                };
                lemma_after_subtree_keeps_outline(s, q, new);
            }
        },
        StructureAction::CalloutBreak { separator_id, paragraph_id } => {
            lemma_nearest_quote(s, i);
            let q = nearest_quote(s, i);
            if q >= 0 {
                lemma_topmost_quote(s, q);
                let t = topmost_quote(s, q);
                let d = s[t].depth;
                let new = if d == 0 {
                    seq![paragraph_at(paragraph_id, d)]
                } else {
                    seq![paragraph_at(separator_id, d), paragraph_at(paragraph_id, d)]
                };
                lemma_after_subtree_keeps_outline(s, t, new);
            }
        },
        StructureAction::EnterCalloutBody { body_id } => {
            if e.kind == BlockKind::Callout && !(i + 1 < s.len() && s[i + 1].depth > e.depth) {
                lemma_depth_chain(s, 0, i);
                lemma_insert_keeps_outline(s, i + 1, paragraph_at(body_id, (e.depth + 1) as usize));
            }
        },
        StructureAction::NewlineAbove { new_id } => {
            let x = BlockEntry { id: new_id, kind: BlockKind::Paragraph, depth: e.depth };
            if i > 0 {
                assert(step_ok(s, i));
            }
            lemma_insert_keeps_outline(s, i, x);
        },
    }
}

/// Where a merged block's children go: the previous block's subtree end
/// lies past the block's subtree when the previous block is its parent.
proof fn lemma_parent_subtree_covers(s: Seq<BlockEntry>, i: int)
    requires
        0 < i < s.len(),
        s[i].depth == s[i - 1].depth + 1,
    ensures
        subtree_end(s, i) <= subtree_end(s, i - 1),
{
    lemma_subtree_end(s, i);
    lemma_subtree_end(s, i - 1);
    let ei = subtree_end(s, i);
    let ep = subtree_end(s, i - 1);
    if ep < ei {
        if ep > i {
            assert(s[ep].depth > s[i].depth);
        }
    }
}

proof fn lemma_merge_keeps_outline(s: Seq<BlockEntry>, i: int)
    requires
        outline_wf(s),
        s.len() <= usize::MAX,
        0 < i < s.len(),
    ensures
        outline_wf(structure_outcome(s, i, StructureAction::MergeIntoPrevious).0),
{
    let n = s.len() as int;
    let e = s[i];
    let prev = s[i - 1];
    lemma_subtree_end(s, i);
    let ei = subtree_end(s, i);
    let a = s.subrange(0, i);
    let b = s.subrange(i + 1, ei);
    lemma_steps_sub(s, 0, i);
    lemma_steps_sub(s, i + 1, ei);
    assert(a.len() > 0 && a[a.len() - 1] == prev);
    assert(step_ok(s, i));
    if e.depth == prev.depth + 1 {
        lemma_parent_subtree_covers(s, i);
        lemma_subtree_end(s, i - 1);
        let ep = subtree_end(s, i - 1);
        let t = s.subrange(ei, ep);
        let c = s.subrange(ep, n);
        lemma_steps_sub(s, ei, ep);
        lemma_steps_sub(s, ep, n);
        assert forall|k: int| 0 <= k < b.len() implies 0 <= #[trigger] b[k].depth + (-1) <= usize::MAX by {
            assert(b[k] == s[i + 1 + k]);
        }
        lemma_steps_shift(b, -1);
        let bs = shifted(b, -1);
        if t.len() > 0 {
            assert(t[0] == s[ei]);
        }
        lemma_steps_concat(a, t);
        let at = a + t;
        if bs.len() > 0 {
            assert(b[0] == s[i + 1]);
            assert(step_ok(s, i + 1));
            if t.len() > 0 {
                assert(at[at.len() - 1] == s[ep - 1]);
            } else {
                assert(at[at.len() - 1] == prev);
            }
        }
        lemma_steps_concat(at, bs);
        let atb = at + bs;
        if c.len() > 0 {
            assert(c[0] == s[ep]);
            if bs.len() > 0 {
                assert(atb[atb.len() - 1] == bs[bs.len() - 1]);
                assert(b[b.len() - 1] == s[ei - 1]);
            } else if t.len() > 0 {
                assert(atb[atb.len() - 1] == s[ep - 1]);
            } else {
                assert(atb[atb.len() - 1] == prev);
            }
        }
        lemma_steps_concat(atb, c);
        assert((atb + c)[0] == s[0]);
    } else {
        let delta = prev.depth - e.depth;
        let c = s.subrange(ei, n);
        lemma_steps_sub(s, ei, n);
        lemma_depth_chain(s, 0, i - 1);
        assert forall|k: int| 0 <= k < b.len() implies 0 <= #[trigger] b[k].depth + delta <= usize::MAX by {
            assert(b[k] == s[i + 1 + k]);
            lemma_depth_chain(s, i, i + 1 + k);
        }
        lemma_steps_shift(b, delta);
        let bs = shifted(b, delta);
        if bs.len() > 0 {
            assert(b[0] == s[i + 1]);
            assert(step_ok(s, i + 1));
        }
        lemma_steps_concat(a, bs);
        let ab = a + bs;
        if c.len() > 0 {
            assert(c[0] == s[ei]);
            if bs.len() > 0 {
                assert(ab[ab.len() - 1] == bs[bs.len() - 1]);
                assert(b[b.len() - 1] == s[ei - 1]);
            } else {
                assert(ab[ab.len() - 1] == prev);
            }
        }
        lemma_steps_concat(ab, c);
        assert((ab + c)[0] == s[0]);
    }
}

/// The nearest quote around block `j`, when there is one, is block `j` or
/// an earlier block, and is a quote or callout.
proof fn lemma_nearest_quote(s: Seq<BlockEntry>, j: int)
    requires
        outline_wf(s),
        0 <= j < s.len(),
    ensures
        -1 <= nearest_quote(s, j) <= j,
        nearest_quote(s, j) >= 0 ==> is_quote_container(s[nearest_quote(s, j)].kind),
    decreases j + 1,
{
    if !is_quote_container(s[j].kind) {
        let p = parent_index(s, j);
        if s[j].depth > 0 {
            lemma_parent(s, j);
            lemma_nearest_quote(s, p);
        } else {
            lemma_last_shallower_from(s, j, j - 1);
        }
    }
}

/// The outermost quote reached from quote `q` is `q` or an earlier block.
proof fn lemma_topmost_quote(s: Seq<BlockEntry>, q: int)
    requires
        outline_wf(s),
        0 <= q < s.len(),
    ensures
        0 <= topmost_quote(s, q) <= q,
    decreases q + 1,
{
    let p = parent_index(s, q);
    if 0 <= p < q && is_quote_container(s[p].kind) {
        lemma_topmost_quote(s, p);
    }
}

/// Inserting one or two blocks at the depth of block `q` after its
/// subtree keeps the outline.
proof fn lemma_after_subtree_keeps_outline(s: Seq<BlockEntry>, q: int, new: Seq<BlockEntry>)
    requires
        outline_wf(s),
        0 <= q < s.len(),
        1 <= new.len() <= 2,
        forall|k: int| 0 <= k < new.len() ==> (#[trigger] new[k]).depth == s[q].depth,
    ensures
        outline_wf(after_subtree(s, q, new)),
        after_subtree(s, q, new).len() == s.len() + new.len(),
{
    lemma_subtree_end(s, q);
    let end = subtree_end(s, q);
    let n = s.len() as int;
    if end > 0 && end - 1 > q {
        assert(s[end - 1].depth > s[q].depth);
    }
    lemma_insert_keeps_outline(s, end, new[0]);
    let s1 = s.subrange(0, end).push(new[0]) + s.subrange(end, n);
    if new.len() == 1 {
        assert(after_subtree(s, q, new) =~= s1);
    } else {
        assert(s1[end] == new[0]);
        if end + 1 < s1.len() {
            assert(s1[end + 1] == s[end]);
        }
        lemma_insert_keeps_outline(s1, end + 1, new[1]);
        assert(s1.subrange(0, end + 1).push(new[1]) + s1.subrange(end + 1, s1.len() as int) =~= after_subtree(
            s,
            q,
            new,
        ));
    }
}

/// Inserting block `x` at position `at` keeps the outline when `x` is at
/// most one level deeper than the block before it (or at the top level
/// when it comes first) and the block after it is at most one level
/// deeper than `x`.
proof fn lemma_insert_keeps_outline(s: Seq<BlockEntry>, at: int, x: BlockEntry)
    requires
        outline_wf(s),
        0 <= at <= s.len(),
        at == 0 ==> x.depth == 0,
        at > 0 ==> x.depth <= s[at - 1].depth + 1,
        at < s.len() ==> s[at].depth <= x.depth + 1,
    ensures
        outline_wf(s.subrange(0, at).push(x) + s.subrange(at, s.len() as int)),
{
    let a = s.subrange(0, at);
    let c = s.subrange(at, s.len() as int);
    lemma_steps_sub(s, 0, at);
    lemma_steps_sub(s, at, s.len() as int);
    let one = seq![x];
    assert(steps_ok(one));
    if at > 0 {
        assert(a[a.len() - 1] == s[at - 1]);
    }
    lemma_steps_concat(a, one);
    assert(a + one =~= a.push(x));
    if c.len() > 0 {
        assert(c[0] == s[at]);
        assert(a.push(x)[a.push(x).len() - 1] == x);
    }
    lemma_steps_concat(a.push(x), c);
    let r = a.push(x) + c;
    if at > 0 {
        assert(r[0] == s[0]);
    } else {
        assert(r[0] == x);
    }
}

proof fn lemma_indent_keeps_outline(s: Seq<BlockEntry>, i: int)
    requires
        outline_wf(s),
        s.len() <= usize::MAX,
        0 < i < s.len(),
        s[i].depth != s[i - 1].depth + 1,
    ensures
        ({
            let end = subtree_end(s, i);
            outline_wf(
                s.subrange(0, i) + shifted(s.subrange(i, end), s[i - 1].depth + 1 - s[i].depth)
                    + s.subrange(end, s.len() as int),
            )
        }),
{
    let n = s.len() as int;
    let end = subtree_end(s, i);
    lemma_subtree_end(s, i);
    let delta = s[i - 1].depth + 1 - s[i].depth;
    assert(step_ok(s, i));
    assert(delta > 0);
    lemma_depth_chain(s, 0, i - 1);
    let a = s.subrange(0, i);
    let m = s.subrange(i, end);
    let c = s.subrange(end, n);
    lemma_steps_sub(s, 0, i);
    lemma_steps_sub(s, i, end);
    lemma_steps_sub(s, end, n);
    assert forall|k: int| 0 <= k < m.len() implies 0 <= #[trigger] m[k].depth + delta <= usize::MAX by {
        assert(m[k] == s[i + k]);
        lemma_depth_chain(s, i, i + k);
        if k > 0 {
            assert(s[i + k].depth > s[i].depth);
        }
    }
    lemma_steps_shift(m, delta);
    let ms = shifted(m, delta);
    assert(ms[0].depth == s[i - 1].depth + 1);
    assert(a[a.len() - 1] == s[i - 1]);
    lemma_steps_concat(a, ms);
    let am = a + ms;
    if c.len() > 0 {
        assert(c[0] == s[end]);
        assert(am[am.len() - 1] == ms[ms.len() - 1]);
        assert(m[m.len() - 1] == s[end - 1]);
        if end - 1 > i {
            assert(s[end - 1].depth > s[i].depth);
        }
        assert(s[end].depth <= s[i].depth);
    }
    lemma_steps_concat(am, c);
    assert((am + c)[0] == s[0]);
}

proof fn lemma_outdent_keeps_outline(s: Seq<BlockEntry>, i: int)
    requires
        outline_wf(s),
        0 <= i < s.len(),
        s[i].depth > 0,
    ensures
        ({
            let p = parent_index(s, i);
            let ei = subtree_end(s, i);
            let ep = subtree_end(s, p);
            outline_wf(
                s.subrange(0, i) + s.subrange(ei, ep) + shifted(s.subrange(i, ei), -1)
                    + s.subrange(ep, s.len() as int),
            )
        }),
{
    let n = s.len() as int;
    lemma_parent(s, i);
    let p = parent_index(s, i);
    lemma_subtree_end(s, i);
    lemma_subtree_end(s, p);
    let ei = subtree_end(s, i);
    let ep = subtree_end(s, p);
    let a = s.subrange(0, i);
    let m = s.subrange(ei, ep);
    let b = s.subrange(i, ei);
    let c = s.subrange(ep, n);
    lemma_steps_sub(s, 0, i);
    lemma_steps_sub(s, ei, ep);
    lemma_steps_sub(s, i, ei);
    lemma_steps_sub(s, ep, n);
    assert forall|k: int| 0 <= k < b.len() implies 0 <= #[trigger] b[k].depth + (-1) <= usize::MAX by {
        assert(b[k] == s[i + k]);
        if k > 0 {
            assert(s[i + k].depth > s[i].depth);
        }
    }
    lemma_steps_shift(b, -1);
    let bs = shifted(b, -1);
    assert(a.len() > 0);
    assert(a[a.len() - 1] == s[i - 1]);
    if m.len() > 0 {
        assert(m[0] == s[ei]);
        assert(s[ei].depth <= s[i].depth);
        assert(step_ok(s, i));
    }
    lemma_steps_concat(a, m);
    let am = a + m;
    assert(am.len() > 0);
    assert(bs[0].depth == s[i].depth - 1);
    if m.len() > 0 {
        assert(am[am.len() - 1] == s[ep - 1]);
        assert(s[ep - 1].depth > s[p].depth);
    } else {
        assert(am[am.len() - 1] == s[i - 1]);
        assert(step_ok(s, i));
    }
    lemma_steps_concat(am, bs);
    let amb = am + bs;
    if c.len() > 0 {
        assert(c[0] == s[ep]);
        assert(s[ep].depth <= s[p].depth);
        assert(amb[amb.len() - 1] == bs[bs.len() - 1]);
        assert(b[b.len() - 1] == s[ei - 1]);
        if ei - 1 > i {
            assert(s[ei - 1].depth > s[i].depth);
        }
        assert(bs[bs.len() - 1].depth == s[ei - 1].depth - 1);
    }
    lemma_steps_concat(amb, c);
    assert((amb + c)[0] == s[0]);
}

proof fn lemma_delete_keeps_outline(s: Seq<BlockEntry>, i: int)
    requires
        outline_wf(s),
        0 <= i < s.len(),
        s.len() > 1,
    ensures
        ({
            let end = subtree_end(s, i);
            outline_wf(s.subrange(0, i) + shifted(s.subrange(i + 1, end), -1) + s.subrange(end, s.len() as int))
        }),
{
    let n = s.len() as int;
    lemma_subtree_end(s, i);
    let end = subtree_end(s, i);
    let a = s.subrange(0, i);
    let b = s.subrange(i + 1, end);
    let c = s.subrange(end, n);
    lemma_steps_sub(s, 0, i);
    lemma_steps_sub(s, i + 1, end);
    lemma_steps_sub(s, end, n);
    assert forall|k: int| 0 <= k < b.len() implies 0 <= #[trigger] b[k].depth + (-1) <= usize::MAX by {
        assert(b[k] == s[i + 1 + k]);
    }
    lemma_steps_shift(b, -1);
    let bs = shifted(b, -1);
    if b.len() > 0 {
        assert(b[0] == s[i + 1]);
        assert(step_ok(s, i + 1));
        assert(bs[0].depth == s[i].depth);
        if a.len() > 0 {
            assert(a[a.len() - 1] == s[i - 1]);
            assert(step_ok(s, i));
        } else {
            assert(s[i].depth == 0);
        }
    }
    lemma_steps_concat(a, bs);
    let ab = a + bs;
    if c.len() > 0 {
        assert(c[0] == s[end]);
        assert(s[end].depth <= s[i].depth);
        if b.len() > 0 {
            assert(ab[ab.len() - 1] == bs[bs.len() - 1]);
            assert(b[b.len() - 1] == s[end - 1]);
            assert(s[end - 1].depth > s[i].depth);
        } else if a.len() > 0 {
            assert(ab[ab.len() - 1] == s[i - 1]);
            assert(step_ok(s, i));
        }
    }
    lemma_steps_concat(ab, c);
    let r = ab + c;
    if r.len() > 0 {
        if i > 0 {
            assert(r[0] == s[0]);
        } else if b.len() > 0 {
            assert(r[0] == bs[0]);
            assert(s[0].depth == 0);
        } else {
            assert(r[0] == s[end]);
            assert(s[end].depth <= s[0].depth);
        }
    }
}

/// Toggling a task list item flips its checked flag: a checked task
/// becomes unchecked and an unchecked one checked. The block keeps its id
/// and depth, every other block is left as it was, the toggle is recorded
/// as a change, and toggling twice restores the document.
pub proof fn lemma_toggle_task_flips(s: Seq<BlockEntry>, i: int, checked: bool)
    requires
        0 <= i < s.len(),
        s[i].kind == (BlockKind::TaskListItem { checked }),
    ensures
        ({
            let (t, effect) = structure_outcome(s, i, StructureAction::ToggleTaskChecked);
            &&& t.len() == s.len()
            &&& t[i].kind == (BlockKind::TaskListItem { checked: !checked })
            &&& t[i].id == s[i].id
            &&& t[i].depth == s[i].depth
            &&& forall|j: int| 0 <= j < s.len() && j != i ==> t[j] == s[j]
            &&& effect.changed
            &&& structure_outcome(t, i, StructureAction::ToggleTaskChecked).0 == s
        }),
{
    let t = structure_outcome(s, i, StructureAction::ToggleTaskChecked).0;
    assert(t[i].kind == (BlockKind::TaskListItem { checked: !checked }));
    let u = structure_outcome(t, i, StructureAction::ToggleTaskChecked).0;
    assert(u =~= s);
}

/// Toggling a block that is no task list item leaves the document as it
/// was.
pub proof fn lemma_toggle_other_block_unchanged(s: Seq<BlockEntry>, i: int)
    requires
        0 <= i < s.len(),
        !(s[i].kind is TaskListItem),
    ensures
        structure_outcome(s, i, StructureAction::ToggleTaskChecked).0 == s,
{
}

/// Deleting the only block of a document never empties it: the block
/// stays, as a paragraph with the same id, and keeps the focus.
pub proof fn lemma_delete_last_block_keeps_paragraph(s: Seq<BlockEntry>, text_empty: bool)
    requires
        s.len() == 1,
    ensures
        structure_outcome(s, 0, StructureAction::Delete { text_empty }).0.len() == 1,
        structure_outcome(s, 0, StructureAction::Delete { text_empty }).0[0].id == s[0].id,
        structure_outcome(s, 0, StructureAction::Delete { text_empty }).0[0].kind == BlockKind::Paragraph,
        structure_outcome(s, 0, StructureAction::Delete { text_empty }).1.focus == Some(s[0].id),
{
}

/// Deleting a block of a longer document removes exactly that block: the
/// other blocks stay, in their order.
pub proof fn lemma_delete_removes_one_block(s: Seq<BlockEntry>, i: int, text_empty: bool)
    requires
        outline_wf(s),
        0 <= i < s.len(),
        s.len() > 1,
    ensures
        structure_outcome(s, i, StructureAction::Delete { text_empty }).0.map_values(|e: BlockEntry| e.id)
            == s.remove(i).map_values(|e: BlockEntry| e.id),
{
    if empties_callout(s, i, text_empty) {
        let r = structure_outcome(s, i, StructureAction::Delete { text_empty }).0;
        assert(r.map_values(|e: BlockEntry| e.id) =~= s.remove(i).map_values(|e: BlockEntry| e.id));
        return;
    }
    let n = s.len() as int;
    lemma_subtree_end(s, i);
    let end = subtree_end(s, i);
    let b = s.subrange(i + 1, end);
    assert forall|k: int| 0 <= k < b.len() implies 0 <= #[trigger] b[k].depth + (-1) <= usize::MAX by {
        assert(b[k] == s[i + 1 + k]);
    }
    lemma_steps_sub(s, i + 1, end);
    lemma_steps_shift(b, -1);
    let r = structure_outcome(s, i, StructureAction::Delete { text_empty }).0;
    assert(r.map_values(|e: BlockEntry| e.id) =~= s.remove(i).map_values(|e: BlockEntry| e.id));
}

/// A new line adds exactly one block, a sibling of the block at its depth,
/// and keeps every other block in its order.
pub proof fn lemma_newline_adds_one_block(s: Seq<BlockEntry>, i: int, new_id: u64, new_kind: BlockKind)
    requires
        outline_wf(s),
        0 <= i < s.len(),
    ensures
        ({
            let r = structure_outcome(s, i, StructureAction::Newline { new_id, new_kind }).0;
            let end = subtree_end(s, i);
            &&& r.len() == s.len() + 1
            &&& r[end] == (BlockEntry { id: new_id, kind: new_kind, depth: s[i].depth })
            &&& r.remove(end) == s
        }),
{
    lemma_subtree_end(s, i);
    let end = subtree_end(s, i);
    let r = structure_outcome(s, i, StructureAction::Newline { new_id, new_kind }).0;
    assert(r.remove(end) =~= s);
}

/// Indenting and outdenting move blocks without losing any: the document
/// keeps its length.
pub proof fn lemma_moves_keep_length(s: Seq<BlockEntry>, i: int, a: StructureAction)
    requires
        outline_wf(s),
        !(a is Delete),
        !(a is Newline),
        !(a is NewlineAbove),
        !(a is MergeIntoPrevious),
        !(a is QuoteBreak),
        !(a is CalloutBreak),
        !(a is EnterCalloutBody),
    ensures
        structure_outcome(s, i, a).0.len() == s.len(),
{
    if 0 <= i < s.len() {
        match a {
            StructureAction::Indent { nests_under_previous } => {
                if !(i == 0 || !nests_under_previous || s[i].depth == s[i - 1].depth + 1) {
                    lemma_subtree_end(s, i);
                }
            },
            StructureAction::Outdent => {
                if s[i].depth > 0 {
                    lemma_parent(s, i);
                    lemma_subtree_end(s, i);
                    lemma_subtree_end(s, parent_index(s, i));
                }
            },
            _ => {},
        }
    }
}

// ---------------------------------------------------------------------
// The document.
// ---------------------------------------------------------------------

/// The blocks of a document, in reading order, with their depths.
pub struct DocModel {
    entries: Vec<BlockEntry>,
}

impl View for DocModel {
    type V = Seq<BlockEntry>;

    closed spec fn view(&self) -> Seq<BlockEntry> {
        self.entries@
    }
}

impl DocModel {
    /// The blocks always form a well-formed outline.
    #[verifier::type_invariant]
    closed spec fn inv(self) -> bool {
        outline_wf(self.entries@)
    }

    /// The document of `entries`, when they form a well-formed outline.
    pub fn from_entries(entries: Vec<BlockEntry>) -> (doc: Option<DocModel>)
        ensures
            doc is Some <==> outline_wf(entries@),
            doc matches Some(d) ==> d@ == entries@,
    {
        let n = entries.len();
        if n > 0 && entries[0].depth != 0 {
            return None;
        }
        let mut k: usize = 1;
        while k < n
            invariant
                n == entries@.len(),
                1 <= k,
                forall|j: int| 0 < j < k && j < n ==> #[trigger] step_ok(entries@, j),
            decreases n - k,
        {
            if entries[k].depth > entries[k - 1].depth && entries[k].depth - entries[k - 1].depth > 1 {
                assert(!steps_ok(entries@)) by {
                    assert(!step_ok(entries@, k as int));
                }
                return None;
            }
            k = k + 1;
        }
        Some(DocModel { entries })
    }

    /// The blocks, in reading order.
    pub fn entries(&self) -> (r: &Vec<BlockEntry>)
        ensures
            r@ == self@,
    {
        &self.entries
    }

    /// The blocks in `from..to` of `src`, their depths moved by
    /// `up - down`, appended to `out`.
    fn push_shifted(
        out: &mut Vec<BlockEntry>,
        src: &Vec<BlockEntry>,
        from: usize,
        to: usize,
        up: usize,
        down: usize,
    )
        requires
            from <= to <= src@.len(),
            forall|k: int| from <= k < to ==> 0 <= #[trigger] src@[k].depth + up - down <= usize::MAX,
        ensures
            final(out)@ == old(out)@ + shifted(src@.subrange(from as int, to as int), up - down),
    {
        let ghost start = out@;
        let mut k = from;
        while k < to
            invariant
                from <= k <= to <= src@.len(),
                forall|j: int| from <= j < to ==> 0 <= #[trigger] src@[j].depth + up - down <= usize::MAX,
                out@ == start + shifted(src@.subrange(from as int, k as int), up - down),
            decreases to - k,
        {
            let e = src[k];
            assert(0 <= src@[k as int].depth + up - down <= usize::MAX);
            let depth = if up >= down {
                e.depth + (up - down)
            } else {
                e.depth - (down - up)
            };
            out.push(BlockEntry { depth, ..e });
            assert(src@.subrange(from as int, k + 1) =~= src@.subrange(from as int, k as int).push(e));
            assert(shifted(src@.subrange(from as int, k + 1), up - down) =~= shifted(
                src@.subrange(from as int, k as int),
                up - down,
            ).push(BlockEntry { depth, ..e }));
            k = k + 1;
        }
    }

    /// The end of the subtree of block `i`.
    fn subtree_end_of(entries: &Vec<BlockEntry>, i: usize) -> (end: usize)
        requires
            i < entries@.len(),
        ensures
            end == subtree_end(entries@, i as int),
    {
        let n = entries.len();
        let d = entries[i].depth;
        let mut j = i + 1;
        while j < n && entries[j].depth > d
            invariant
                i < j <= entries@.len(),
                n == entries@.len(),
                d == entries@[i as int].depth,
                subtree_end(entries@, i as int) == subtree_end_from(entries@, i as int, j as int),
            decreases entries@.len() - j,
        {
            j = j + 1;
        }
        j
    }

    /// The parent of nested block `i`.
    fn parent_of(entries: &Vec<BlockEntry>, i: usize) -> (p: usize)
        requires
            outline_wf(entries@),
            i < entries@.len(),
            entries@[i as int].depth > 0,
        ensures
            p == parent_index(entries@, i as int),
    {
        proof {
            lemma_parent(entries@, i as int);
        }
        let d = entries[i].depth;
        let mut j = i;
        while j > 0 && entries[j - 1].depth >= d
            invariant
                0 <= j <= i < entries@.len(),
                d == entries@[i as int].depth,
                parent_index(entries@, i as int) == last_shallower_from(entries@, i as int, j - 1),
                0 <= parent_index(entries@, i as int) < i,
            decreases j,
        {
            j = j - 1;
        }
        if j == 0 {
            assert(last_shallower_from(entries@, i as int, -1) == -1);
        }
        j - 1
    }

    /// The blocks with block `index` of kind `kind`.
    fn with_kind_at(entries: &Vec<BlockEntry>, index: usize, kind: BlockKind) -> (out: Vec<BlockEntry>)
        requires
            index < entries@.len(),
        ensures
            out@ == entries@.update(index as int, with_kind(entries@[index as int], kind)),
    {
        let mut out = entries.clone();
        assert(out@ == entries@);
        let e = entries[index];
        out.set(index, BlockEntry { kind, ..e });
        out
    }

    /// The blocks with block `index` and its subtree nested under the
    /// block before it.
    fn indented(entries: &Vec<BlockEntry>, index: usize) -> (out: Vec<BlockEntry>)
        requires
            outline_wf(entries@),
            0 < index < entries@.len(),
            entries@[index as int].depth != entries@[index - 1].depth + 1,
        ensures
            ({
                let s = entries@;
                let i = index as int;
                let end = subtree_end(s, i);
                out@ == s.subrange(0, i) + shifted(s.subrange(i, end), s[i - 1].depth + 1 - s[i].depth)
                    + s.subrange(end, s.len() as int)
            }),
    {
        let ghost s = entries@;
        let n = entries.len();
        let d = entries[index].depth;
        let prev_depth = entries[index - 1].depth;
        let end = Self::subtree_end_of(entries, index);
        proof {
            lemma_subtree_end(s, index as int);
            lemma_depth_chain(s, 0, index - 1);
            assert(step_ok(s, index as int));
            assert forall|k: int| index <= k < end implies 0 <= #[trigger] s[k].depth + (prev_depth + 1) - d
                <= usize::MAX by {
                lemma_depth_chain(s, index as int, k);
            }
        }
        let mut out: Vec<BlockEntry> = Vec::new();
        Self::push_shifted(&mut out, entries, 0, index, 0, 0);
        Self::push_shifted(&mut out, entries, index, end, prev_depth + 1, d);
        Self::push_shifted(&mut out, entries, end, n, 0, 0);
        assert(shifted(s.subrange(0, index as int), 0) =~= s.subrange(0, index as int));
        assert(shifted(s.subrange(end as int, n as int), 0) =~= s.subrange(end as int, n as int));
        out
    }

    /// The blocks with nested block `index` and its subtree moved to just
    /// after its parent's subtree, one level up.
    fn outdented(entries: &Vec<BlockEntry>, index: usize) -> (out: Vec<BlockEntry>)
        requires
            outline_wf(entries@),
            index < entries@.len(),
            entries@[index as int].depth > 0,
        ensures
            ({
                let s = entries@;
                let i = index as int;
                let p = parent_index(s, i);
                let ei = subtree_end(s, i);
                let ep = subtree_end(s, p);
                out@ == s.subrange(0, i) + s.subrange(ei, ep) + shifted(s.subrange(i, ei), -1) + s.subrange(
                    ep,
                    s.len() as int,
                )
            }),
    {
        let ghost s = entries@;
        let n = entries.len();
        proof {
            lemma_parent(s, index as int);
            lemma_subtree_end(s, index as int);
        }
        let p = Self::parent_of(entries, index);
        let ei = Self::subtree_end_of(entries, index);
        let ep = Self::subtree_end_of(entries, p);
        proof {
            lemma_subtree_end(s, p as int);
            assert forall|k: int| index <= k < ei implies 0 <= #[trigger] s[k].depth + 0 - 1 <= usize::MAX by {
                if k > index {
                    assert(s[k].depth > s[index as int].depth);
                }
            }
        }
        let mut out: Vec<BlockEntry> = Vec::new();
        Self::push_shifted(&mut out, entries, 0, index, 0, 0);
        Self::push_shifted(&mut out, entries, ei, ep, 0, 0);
        Self::push_shifted(&mut out, entries, index, ei, 0, 1);
        Self::push_shifted(&mut out, entries, ep, n, 0, 0);
        assert(shifted(s.subrange(0, index as int), 0) =~= s.subrange(0, index as int));
        assert(shifted(s.subrange(ei as int, ep as int), 0) =~= s.subrange(ei as int, ep as int));
        assert(shifted(s.subrange(ep as int, n as int), 0) =~= s.subrange(ep as int, n as int));
        out
    }

    /// The blocks without block `index`, its children one level up in its
    /// place.
    fn without_block(entries: &Vec<BlockEntry>, index: usize) -> (out: Vec<BlockEntry>)
        requires
            index < entries@.len(),
        ensures
            ({
                let s = entries@;
                let i = index as int;
                let end = subtree_end(s, i);
                out@ == s.subrange(0, i) + shifted(s.subrange(i + 1, end), -1) + s.subrange(end, s.len() as int)
            }),
    {
        let ghost s = entries@;
        let n = entries.len();
        let end = Self::subtree_end_of(entries, index);
        proof {
            lemma_subtree_end(s, index as int);
        }
        let mut out: Vec<BlockEntry> = Vec::new();
        Self::push_shifted(&mut out, entries, 0, index, 0, 0);
        Self::push_shifted(&mut out, entries, index + 1, end, 0, 1);
        Self::push_shifted(&mut out, entries, end, n, 0, 0);
        assert(shifted(s.subrange(0, index as int), 0) =~= s.subrange(0, index as int));
        assert(shifted(s.subrange(end as int, n as int), 0) =~= s.subrange(end as int, n as int));
        out
    }

    /// The blocks with block `index` merged into the block before it.
    fn merged(entries: &Vec<BlockEntry>, index: usize) -> (out: Vec<BlockEntry>)
        requires
            outline_wf(entries@),
            0 < index < entries@.len(),
        ensures
            out@ == structure_outcome(entries@, index as int, StructureAction::MergeIntoPrevious).0,
    {
        let ghost s = entries@;
        let n = entries.len();
        let d = entries[index].depth;
        let pd = entries[index - 1].depth;
        let ei = Self::subtree_end_of(entries, index);
        proof {
            lemma_subtree_end(s, index as int);
            assert(step_ok(s, index as int));
        }
        let mut out: Vec<BlockEntry> = Vec::new();
        Self::push_shifted(&mut out, entries, 0, index, 0, 0);
        assert(shifted(s.subrange(0, index as int), 0) =~= s.subrange(0, index as int));
        if d > pd {
            proof {
                lemma_parent_subtree_covers(s, index as int);
                lemma_subtree_end(s, index - 1);
            }
            let ep = Self::subtree_end_of(entries, index - 1);
            Self::push_shifted(&mut out, entries, ei, ep, 0, 0);
            Self::push_shifted(&mut out, entries, index + 1, ei, 0, 1);
            Self::push_shifted(&mut out, entries, ep, n, 0, 0);
            assert(shifted(s.subrange(ei as int, ep as int), 0) =~= s.subrange(ei as int, ep as int));
            assert(shifted(s.subrange(ep as int, n as int), 0) =~= s.subrange(ep as int, n as int));
        } else {
            proof {
                lemma_depth_chain(s, 0, index - 1);
                assert forall|k: int| index + 1 <= k < ei implies 0 <= #[trigger] s[k].depth + pd - d
                    <= usize::MAX by {
                    lemma_depth_chain(s, index as int, k);
                }
            }
            Self::push_shifted(&mut out, entries, index + 1, ei, pd, d);
            Self::push_shifted(&mut out, entries, ei, n, 0, 0);
            assert(shifted(s.subrange(ei as int, n as int), 0) =~= s.subrange(ei as int, n as int));
        }
        out
    }

    /// The nearest of block `index` and its ancestors that is a quote or
    /// callout.
    fn nearest_quote_of(entries: &Vec<BlockEntry>, index: usize) -> (q: Option<usize>)
        requires
            outline_wf(entries@),
            index < entries@.len(),
        ensures
            match q {
                Some(q) => q as int == nearest_quote(entries@, index as int),
                None => nearest_quote(entries@, index as int) < 0,
            },
    {
        let ghost s = entries@;
        let mut j = index;
        while !kind_is_quote_container(entries[j].kind)
            invariant
                outline_wf(s),
                s == entries@,
                j < s.len(),
                nearest_quote(s, index as int) == nearest_quote(s, j as int),
            decreases j,
        {
            if entries[j].depth == 0 {
                proof {
                    lemma_last_shallower_from(s, j as int, j - 1);
                }
                return None;
            }
            proof {
                lemma_parent(s, j as int);
            }
            j = Self::parent_of(entries, j);
        }
        Some(j)
    }

    /// The outermost quote or callout reached from quote `q` through
    /// parents that are quotes or callouts.
    fn topmost_quote_of(entries: &Vec<BlockEntry>, q: usize) -> (t: usize)
        requires
            outline_wf(entries@),
            q < entries@.len(),
        ensures
            t as int == topmost_quote(entries@, q as int),
    {
        let ghost s = entries@;
        let mut j = q;
        loop
            invariant
                outline_wf(s),
                s == entries@,
                j < s.len(),
                topmost_quote(s, q as int) == topmost_quote(s, j as int),
            decreases j,
        {
            if entries[j].depth == 0 {
                proof {
                    lemma_last_shallower_from(s, j as int, j - 1);
                }
                return j;
            }
            proof {
                lemma_parent(s, j as int);
            }
            let p = Self::parent_of(entries, j);
            if !kind_is_quote_container(entries[p].kind) {
                return j;
            }
            j = p;
        }
    }

    /// The blocks with the one or two blocks `new` inserted after the
    /// subtree of block `q`.
    fn inserted_after_subtree(entries: &Vec<BlockEntry>, q: usize, new: Vec<BlockEntry>) -> (out: Vec<BlockEntry>)
        requires
            q < entries@.len(),
        ensures
            out@ == after_subtree(entries@, q as int, new@),
    {
        let ghost s = entries@;
        let n = entries.len();
        let end = Self::subtree_end_of(entries, q);
        proof {
            lemma_subtree_end(s, q as int);
        }
        let mut out: Vec<BlockEntry> = Vec::new();
        Self::push_shifted(&mut out, entries, 0, end, 0, 0);
        Self::push_shifted(&mut out, &new, 0, new.len(), 0, 0);
        Self::push_shifted(&mut out, entries, end, n, 0, 0);
        assert(shifted(s.subrange(0, end as int), 0) =~= s.subrange(0, end as int));
        assert(shifted(new@.subrange(0, new@.len() as int), 0) =~= new@);
        assert(shifted(s.subrange(end as int, n as int), 0) =~= s.subrange(end as int, n as int));
        out
    }

    /// The blocks with `x` inserted at position `at`.
    fn inserted(entries: &Vec<BlockEntry>, at: usize, x: BlockEntry) -> (out: Vec<BlockEntry>)
        requires
            at <= entries@.len(),
        ensures
            out@ == entries@.subrange(0, at as int).push(x) + entries@.subrange(at as int, entries@.len() as int),
    {
        let ghost s = entries@;
        let n = entries.len();
        let mut out: Vec<BlockEntry> = Vec::new();
        Self::push_shifted(&mut out, entries, 0, at, 0, 0);
        out.push(x);
        Self::push_shifted(&mut out, entries, at, n, 0, 0);
        assert(shifted(s.subrange(0, at as int), 0) =~= s.subrange(0, at as int));
        assert(shifted(s.subrange(at as int, n as int), 0) =~= s.subrange(at as int, n as int));
        out
    }

    /// Applies structure edit `action` to block `index` and says what the
    /// editor is to do: see `structure_outcome`.
    pub fn apply_structure_action(&mut self, index: usize, action: StructureAction) -> (effect: EditEffect)
        ensures
            (final(self)@, effect) == structure_outcome(old(self)@, index as int, action),
    {
        proof {
            use_type_invariant(&*self);
        }
        let n = self.entries.len();
        proof {
            lemma_outcome_keeps_outline(self.entries@, index as int, action);
        }
        let ghost s = self.entries@;
        let unchanged = EditEffect { changed: false, focus: None };
        if index >= n {
            return unchanged;
        }
        let e = self.entries[index];
        match action {
            StructureAction::ToggleTaskChecked => {
                match e.kind {
                    BlockKind::TaskListItem { checked } => {
                        let out = Self::with_kind_at(
                            &self.entries,
                            index,
                            BlockKind::TaskListItem { checked: !checked },
                        );
                        self.entries = out;
                    },
                    _ => {},
                }
                EditEffect { changed: true, focus: None }
            },
            StructureAction::Indent { nests_under_previous } => {
                if index == 0 || !nests_under_previous || (e.depth > 0 && e.depth - 1
                    == self.entries[index - 1].depth) {
                    return unchanged;
                }
                let out = Self::indented(&self.entries, index);
                self.entries = out;
                EditEffect { changed: true, focus: Some(e.id) }
            },
            StructureAction::Outdent => {
                let out = if e.depth == 0 {
                    Self::with_kind_at(&self.entries, index, BlockKind::Paragraph)
                } else {
                    Self::outdented(&self.entries, index)
                };
                self.entries = out;
                EditEffect { changed: true, focus: Some(e.id) }
            },
            StructureAction::DowngradeNestedListItem => {
                if e.depth == 0 {
                    return unchanged;
                }
                proof {
                    lemma_parent(s, index as int);
                }
                let p = Self::parent_of(&self.entries, index);
                if !kind_is_list_item(e.kind) || !kind_is_list_item(self.entries[p].kind) {
                    return unchanged;
                }
                let out = Self::with_kind_at(&self.entries, index, BlockKind::Paragraph);
                self.entries = out;
                EditEffect { changed: true, focus: Some(e.id) }
            },
            StructureAction::Delete { text_empty } => {
                if index > 0 && text_empty && e.kind == BlockKind::Paragraph {
                    let p = self.entries[index - 1];
                    if p.kind == BlockKind::Callout && e.depth > p.depth && e.depth - p.depth == 1 && (
                    index + 1 == n || self.entries[index + 1].depth <= p.depth) {
                        let mut out = Self::with_kind_at(&self.entries, index - 1, BlockKind::Blockquote);
                        out.remove(index);
                        self.entries = out;
                        return EditEffect { changed: true, focus: Some(p.id) };
                    }
                }
                if n == 1 {
                    if e.kind == BlockKind::Paragraph {
                        return EditEffect { changed: false, focus: Some(e.id) };
                    }
                    let out = Self::with_kind_at(&self.entries, index, BlockKind::Paragraph);
                    self.entries = out;
                    return EditEffect { changed: true, focus: Some(e.id) };
                }
                let focus = if index > 0 {
                    self.entries[index - 1].id
                } else {
                    self.entries[index + 1].id
                };
                let out = Self::without_block(&self.entries, index);
                self.entries = out;
                EditEffect { changed: true, focus: Some(focus) }
            },
            StructureAction::Newline { new_id, new_kind } => {
                let end = Self::subtree_end_of(&self.entries, index);
                proof {
                    lemma_subtree_end(s, index as int);
                }
                let out = Self::inserted(&self.entries, end, BlockEntry { id: new_id, kind: new_kind, depth: e.depth });
                self.entries = out;
                EditEffect { changed: true, focus: Some(new_id) }
            },
            StructureAction::MergeIntoPrevious => {
                if index == 0 {
                    return unchanged;
                }
                let prev_id = self.entries[index - 1].id;
                let out = Self::merged(&self.entries, index);
                self.entries = out;
                EditEffect { changed: true, focus: Some(prev_id) }
            },
            StructureAction::QuoteBreak { separator_id, quote_id } => {
                let q = match Self::nearest_quote_of(&self.entries, index) {
                    Some(q) => q,
                    None => {
                        return unchanged;
                    },
                };
                proof {
                    lemma_nearest_quote(s, index as int);
                }
                let d = self.entries[q].depth;
                let quote = BlockEntry { id: quote_id, kind: BlockKind::Blockquote, depth: d };
                let new = if d == 0 {
                    vec![quote]
                } else {
                    vec![BlockEntry { id: separator_id, kind: BlockKind::Paragraph, depth: d }, quote]
                };
                assert(new@ =~= if d == 0 {
                    seq![quote]
                } else {
                    seq![paragraph_at(separator_id, d), quote]
                });
                let out = Self::inserted_after_subtree(&self.entries, q, new);
                self.entries = out;
                EditEffect { changed: true, focus: Some(quote_id) }
            },
            StructureAction::CalloutBreak { separator_id, paragraph_id } => {
                let q = match Self::nearest_quote_of(&self.entries, index) {
                    Some(q) => q,
                    None => {
                        return unchanged;
                    },
                };
                proof {
                    lemma_nearest_quote(s, index as int);
                }
                let t = Self::topmost_quote_of(&self.entries, q);
                proof {
                    lemma_topmost_quote(s, q as int);
                }
                let d = self.entries[t].depth;
                let paragraph = BlockEntry { id: paragraph_id, kind: BlockKind::Paragraph, depth: d };
                let new = if d == 0 {
                    vec![paragraph]
                } else {
                    vec![BlockEntry { id: separator_id, kind: BlockKind::Paragraph, depth: d }, paragraph]
                };
                assert(paragraph == paragraph_at(paragraph_id, d));
                assert(new@ =~= if d == 0 {
                    seq![paragraph_at(paragraph_id, d)]
                } else {
                    seq![paragraph_at(separator_id, d), paragraph_at(paragraph_id, d)]
                });
                let out = Self::inserted_after_subtree(&self.entries, t, new);
                self.entries = out;
                EditEffect { changed: true, focus: Some(paragraph_id) }
            },
            StructureAction::EnterCalloutBody { body_id } => {
                if e.kind != BlockKind::Callout {
                    return unchanged;
                }
                if index + 1 < n && self.entries[index + 1].depth > e.depth {
                    return EditEffect { changed: false, focus: Some(self.entries[index + 1].id) };
                }
                proof {
                    lemma_depth_chain(s, 0, index as int);
                }
                let out = Self::inserted(
                    &self.entries,
                    index + 1,
                    BlockEntry { id: body_id, kind: BlockKind::Paragraph, depth: e.depth + 1 },
                );
                self.entries = out;
                EditEffect { changed: true, focus: Some(body_id) }
            },
            StructureAction::NewlineAbove { new_id } => {
                let out = Self::inserted(
                    &self.entries,
                    index,
                    BlockEntry { id: new_id, kind: BlockKind::Paragraph, depth: e.depth },
                );
                self.entries = out;
                EditEffect { changed: true, focus: Some(e.id) }
            },
        }
    }
}

/// Whether a block kind holds a quote group.
pub fn kind_is_quote_container(kind: BlockKind) -> (b: bool)
    ensures
        b == is_quote_container(kind),
{
    match kind {
        BlockKind::Blockquote | BlockKind::Callout => true,
        _ => false,
    }
}

/// Whether a block kind is a list item.
pub fn kind_is_list_item(kind: BlockKind) -> (b: bool)
    ensures
        b == is_list_item(kind),
{
    match kind {
        BlockKind::BulletListItem | BlockKind::OrderedListItem | BlockKind::TaskListItem { .. } => true,
        _ => false,
    }
}

/// A request to move the focus to a neighbouring block.
#[derive(Clone, Copy, Debug, PartialEq, Eq, Structural)]
pub enum FocusRequest {
    /// Arrow up out of the block's first line.
    Previous,
    /// Arrow down out of the block's last line.
    Next,
    /// Jump to the start of the block above.
    BlockUp,
    /// Jump to the start of the block below.
    BlockDown,
}

/// Where the caret lands in a newly focused block.
#[derive(Clone, Copy, Debug, PartialEq, Eq, Structural)]
pub enum CaretLanding {
    /// On the block's last line, near the preferred column.
    LastLine,
    /// On the block's first line, near the preferred column.
    FirstLine,
    /// At the block's start.
    Start,
}

/// Where the focus goes.
#[derive(Clone, Copy, Debug, PartialEq, Eq, Structural)]
pub enum FocusMove {
    /// It stays where it is.
    Stay,
    /// To block `id`, the caret landing as `caret` says.
    Block { id: u64, caret: CaretLanding },
    /// Into table `table`: its first header cell when entered from above,
    /// else a body cell; the table block itself when it has no cell.
    TableCell { table: u64, from_above: bool },
    /// To a new empty paragraph added after the last block.
    TrailingParagraph,
}

/// Where request `r` from block `i` moves the focus. `multiline` says
/// whether block `i` holds several lines of text (code, math).
/// - Up (`Previous`, `BlockUp`) goes to the block before, down to the block
///   after; a table is entered at a cell.
/// - Arrow moves keep the column: up lands on the last line, down on the
///   first; block jumps land at the start.
/// - Arrow down from the last block adds a paragraph to land on when that
///   block holds several lines; otherwise, and at the document's edges,
///   the focus stays.
pub open spec fn focus_outcome(s: Seq<BlockEntry>, i: int, r: FocusRequest, multiline: bool) -> FocusMove {
    if !(0 <= i < s.len()) {
        FocusMove::Stay
    } else {
        let up = r == FocusRequest::Previous || r == FocusRequest::BlockUp;
        if up && i == 0 {
            FocusMove::Stay
        } else if !up && i + 1 >= s.len() {
            if r == FocusRequest::Next && multiline {
                FocusMove::TrailingParagraph
            } else {
                FocusMove::Stay
            }
        } else {
            let t = if up { s[i - 1] } else { s[i + 1] };
            if t.kind == BlockKind::Table {
                FocusMove::TableCell { table: t.id, from_above: !up }
            } else {
                FocusMove::Block {
                    id: t.id,
                    caret: match r {
                        FocusRequest::Previous => CaretLanding::LastLine,
                        FocusRequest::Next => CaretLanding::FirstLine,
                        _ => CaretLanding::Start,
                    },
                }
            }
        }
    }
}

impl DocModel {
    /// Where request `request` from block `index` moves the focus; see
    /// `focus_outcome`.
    pub fn focus_move(&self, index: usize, request: FocusRequest, multiline: bool) -> (m: FocusMove)
        ensures
            m == focus_outcome(self@, index as int, request, multiline),
    {
        let n = self.entries.len();
        if index >= n {
            return FocusMove::Stay;
        }
        let up = match request {
            FocusRequest::Previous | FocusRequest::BlockUp => true,
            _ => false,
        };
        if up && index == 0 {
            return FocusMove::Stay;
        }
        if !up && index + 1 >= n {
            return match request {
                FocusRequest::Next => if multiline {
                    FocusMove::TrailingParagraph
                } else {
                    FocusMove::Stay
                },
                _ => FocusMove::Stay,
            };
        }
        let t = if up {
            self.entries[index - 1]
        } else {
            self.entries[index + 1]
        };
        if t.kind == BlockKind::Table {
            return FocusMove::TableCell { table: t.id, from_above: !up };
        }
        let caret = match request {
            FocusRequest::Previous => CaretLanding::LastLine,
            FocusRequest::Next => CaretLanding::FirstLine,
            _ => CaretLanding::Start,
        };
        FocusMove::Block { id: t.id, caret }
    }
}

/// Focus moves only to a neighbour: a block or table the focus moves to
/// stands just before or just after the block it leaves.
pub proof fn lemma_focus_moves_to_a_neighbour(s: Seq<BlockEntry>, i: int, r: FocusRequest, multiline: bool)
    requires
        0 <= i < s.len(),
    ensures
        focus_outcome(s, i, r, multiline) matches FocusMove::Block { id, .. } ==> (i > 0 && id == s[i
            - 1].id) || (i + 1 < s.len() && id == s[i + 1].id),
        focus_outcome(s, i, r, multiline) matches FocusMove::TableCell { table, .. } ==> (i > 0 && table
            == s[i - 1].id) || (i + 1 < s.len() && table == s[i + 1].id),
{
}

} // verus!
