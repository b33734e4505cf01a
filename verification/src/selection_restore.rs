//! Where a restored selection lands in the rendered document.
//!
//! Undo and redo store the selection as a range of the Markdown source.
//! To show it again in the rendered view, the editor looks for the block
//! whose source span holds both ends of the range and whose offset maps
//! carry them to rendered content and back unchanged. When no block does,
//! the caret goes to the block nearest to the range's end.

use crate::undo::{offset_distance, range_contains, source_offset_distance, source_range_contains};
use std::ops::Range;
use vstd::prelude::*;

verus! {

/// The source span of one rendered block and its offset maps between
/// source and rendered content.
#[derive(Debug)]
pub struct SourceTargetMapping {
    pub full_source_range: Range<usize>,
    /// For each content offset, the source offset within the block.
    pub content_to_source: Vec<usize>,
    /// For each source offset within the block, the content offset.
    pub source_to_content: Vec<usize>,
}

/// Where a restored selection goes.
#[derive(Debug, PartialEq, Eq)]
pub enum SelectionRestoreTarget {
    /// The selection maps exactly into block `mapping_index`, over
    /// `content_range` of its content.
    Exact { mapping_index: usize, content_range: Range<usize> },
    /// A collapsed caret at `content_offset` of block `mapping_index`.
    Caret { mapping_index: usize, content_offset: usize },
    /// There is no block to place the caret in.
    NoMapping,
}

impl SourceTargetMapping {
    /// The maps cover the block: one source entry per source offset of the
    /// span (ends included), and at least one content entry.
    pub open spec fn wf(&self) -> bool {
        &&& self.full_source_range.start <= self.full_source_range.end
        &&& self.source_to_content@.len() > self.full_source_range.end - self.full_source_range.start
        &&& self.content_to_source@.len() > 0
    }

    /// `offset` less the span start, or `0` before the span.
    pub open spec fn local(&self, offset: usize) -> int {
        if offset >= self.full_source_range.start {
            offset - self.full_source_range.start
        } else {
            0
        }
    }

    /// The content offset of source offset `local`, clamped to the map.
    pub open spec fn to_content(&self, local: int) -> usize {
        let n = self.source_to_content@.len();
        if local < n - 1 {
            self.source_to_content@[local]
        } else {
            self.source_to_content@[n - 1]
        }
    }

    /// The source offset of content offset `content`, clamped to the map.
    pub open spec fn to_source(&self, content: usize) -> usize {
        let n = self.content_to_source@.len();
        if content < n - 1 {
            self.content_to_source@[content as int]
        } else {
            self.content_to_source@[n - 1]
        }
    }

    /// Whether the block holds both ends of `range` and its maps carry each
    /// end to content and back to the same source offset.
    pub open spec fn exact_for(&self, range: Range<usize>) -> bool {
        &&& range_contains(self.full_source_range, range.start)
        &&& range_contains(self.full_source_range, range.end)
        &&& self.to_source(self.to_content(self.local(range.start))) == self.local(range.start)
        &&& self.to_source(self.to_content(self.local(range.end))) == self.local(range.end)
    }

    /// The source offset of `caret` within the block, clamped to the span.
    pub open spec fn caret_local(&self, caret: usize) -> int {
        if caret <= self.full_source_range.start {
            0
        } else if caret >= self.full_source_range.end {
            self.full_source_range.end - self.full_source_range.start
        } else {
            caret - self.full_source_range.start
        }
    }

    fn local_offset(&self, offset: usize) -> (r: usize)
        ensures
            r == self.local(offset),
    {
        if offset >= self.full_source_range.start {
            offset - self.full_source_range.start
        } else {
            0
        }
    }

    fn content_of(&self, local: usize) -> (r: usize)
        requires
            self.wf(),
        ensures
            r == self.to_content(local as int),
    {
        let n = self.source_to_content.len();
        if local < n - 1 {
            self.source_to_content[local]
        } else {
            self.source_to_content[n - 1]
        }
    }

    fn source_of(&self, content: usize) -> (r: usize)
        requires
            self.wf(),
        ensures
            r == self.to_source(content),
    {
        let n = self.content_to_source.len();
        if content < n - 1 {
            self.content_to_source[content]
        } else {
            self.content_to_source[n - 1]
        }
    }

    /// Whether the block takes `range` exactly.
    pub fn is_exact_for(&self, range: &Range<usize>) -> (b: bool)
        requires
            self.wf(),
        ensures
            b == self.exact_for(*range),
    {
        if !source_range_contains(&self.full_source_range, range.start)
            || !source_range_contains(&self.full_source_range, range.end) {
            return false;
        }
        let local_start = self.local_offset(range.start);
        let local_end = self.local_offset(range.end);
        let content_start = self.content_of(local_start);
        let content_end = self.content_of(local_end);
        self.source_of(content_start) == local_start && self.source_of(content_end) == local_end
    }
}

/// Every mapping covers its block.
pub open spec fn all_wf(mappings: Seq<SourceTargetMapping>) -> bool {
    forall|i: int| 0 <= i < mappings.len() ==> (#[trigger] mappings[i]).wf()
}

/// Whether block `i` is the first block that takes `range` exactly.
pub open spec fn first_exact(mappings: Seq<SourceTargetMapping>, range: Range<usize>, i: int) -> bool {
    &&& 0 <= i < mappings.len()
    &&& mappings[i].exact_for(range)
    &&& forall|j: int| 0 <= j < i ==> !(#[trigger] mappings[j]).exact_for(range)
}

/// Whether block `i` is the first of the blocks nearest to `caret`.
pub open spec fn first_nearest(mappings: Seq<SourceTargetMapping>, caret: usize, i: int) -> bool {
    &&& 0 <= i < mappings.len()
    &&& forall|j: int|
        0 <= j < mappings.len() ==> offset_distance(mappings[i].full_source_range, caret)
            <= offset_distance(#[trigger] mappings[j].full_source_range, caret)
    &&& forall|j: int|
        0 <= j < i ==> offset_distance(mappings[i].full_source_range, caret)
            < offset_distance(#[trigger] mappings[j].full_source_range, caret)
}

/// Where the selection over source `range` goes among `mappings`: the
/// first block that takes it exactly; else a caret at the range's end in
/// the first block nearest to it; else nowhere.
pub open spec fn restore_target(mappings: Seq<SourceTargetMapping>, range: Range<usize>) -> SelectionRestoreTarget {
    if exists|i: int| first_exact(mappings, range, i) {
        let i = choose|i: int| first_exact(mappings, range, i);
        let m = mappings[i];
        SelectionRestoreTarget::Exact {
            mapping_index: i as usize,
            content_range: Range {
                start: m.source_to_content@[m.local(range.start)],
                end: m.source_to_content@[m.local(range.end)],
            },
        }
    } else if mappings.len() > 0 {
        let i = choose|i: int| first_nearest(mappings, range.end, i);
        let m = mappings[i];
        SelectionRestoreTarget::Caret {
            mapping_index: i as usize,
            content_offset: m.to_content(m.caret_local(range.end)),
        }
    } else {
        SelectionRestoreTarget::NoMapping
    }
}

/// Where the selection over source `range` lands in the rendered
/// document: the first block whose span holds both ends and whose maps
/// carry them to content and back unchanged, over the content range they
/// map to; otherwise a caret at the content offset of the range's end in
/// the first block nearest to it; `NoMapping` when there are no blocks.
pub fn selection_restore_target(mappings: &[SourceTargetMapping], range: &Range<usize>) -> (target: SelectionRestoreTarget)
    requires
        all_wf(mappings@),
    ensures
        target == restore_target(mappings@, *range),
{
    let n = mappings.len();
    let mut i: usize = 0;
    while i < n
        invariant
            n == mappings@.len(),
            0 <= i <= n,
            all_wf(mappings@),
            forall|j: int| 0 <= j < i ==> !(#[trigger] mappings@[j]).exact_for(*range),
        decreases n - i,
    {
        let mapping = &mappings[i];
        if mapping.is_exact_for(range) {
            let local_start = range.start - mapping.full_source_range.start;
            let local_end = range.end - mapping.full_source_range.start;
            let content_range = Range {
                start: mapping.source_to_content[local_start],
                end: mapping.source_to_content[local_end],
            };
            proof {
                assert(first_exact(mappings@, *range, i as int));
                let k = choose|k: int| first_exact(mappings@, *range, k);
                if k > i {
                    assert(!mappings@[i as int].exact_for(*range));
                }
                if k < i {
                    assert(!mappings@[k].exact_for(*range));
                }
                assert(k == i);
            }
            return SelectionRestoreTarget::Exact { mapping_index: i, content_range };
        }
        i = i + 1;
    }
    if n == 0 {
        return SelectionRestoreTarget::NoMapping;
    }
    let caret = range.end;
    let mut best: usize = 0;
    let mut best_distance = source_offset_distance(&mappings[0].full_source_range, caret);
    let mut k: usize = 1;
    while k < n
        invariant
            n == mappings@.len(),
            1 <= k <= n,
            best < k,
            best_distance == offset_distance(mappings@[best as int].full_source_range, caret),
            forall|j: int| 0 <= j < k ==> best_distance <= offset_distance(#[trigger] mappings@[j].full_source_range, caret),
            forall|j: int| 0 <= j < best ==> best_distance < offset_distance(#[trigger] mappings@[j].full_source_range, caret),
        decreases n - k,
    {
        let d = source_offset_distance(&mappings[k].full_source_range, caret);
        if d < best_distance {
            best = k;
            best_distance = d;
        }
        k = k + 1;
    }
    let mapping = &mappings[best];
    let range_start = mapping.full_source_range.start;
    let range_end = mapping.full_source_range.end;
    let local_source = if caret <= range_start {
        0
    } else if caret >= range_end {
        range_end - range_start
    } else {
        caret - range_start
    };
    let content_offset = mapping.content_of(local_source);
    proof {
        assert forall|i: int| !first_exact(mappings@, *range, i) by {
            if 0 <= i < mappings@.len() {
                assert(!mappings@[i].exact_for(*range));
            }
        }
        assert(first_nearest(mappings@, range.end, best as int));
        let c = choose|c: int| first_nearest(mappings@, range.end, c);
        if c < best {
            assert(best_distance < offset_distance(mappings@[c].full_source_range, caret));
            assert(offset_distance(mappings@[c].full_source_range, caret) <= best_distance);
        }
        if c > best {
            assert(offset_distance(mappings@[c].full_source_range, caret) < best_distance);
            assert(best_distance <= offset_distance(mappings@[c].full_source_range, caret));
        }
        assert(c == best);
    }
    SelectionRestoreTarget::Caret { mapping_index: best, content_offset }
}

/// The collapsed selection that restores a snapshot in source mode, in
/// a document of `len` bytes: a caret at the end of the snapshot's block
/// anchor when it has one (`anchor_end`), else at the end of its range,
/// limited to the document.
pub fn source_mode_selection(range: &Range<usize>, anchor_end: Option<usize>, len: usize) -> (r: Range<usize>)
    ensures
        ({
            let cursor = match anchor_end {
                Some(e) => e,
                None => range.end,
            };
            let at = if cursor < len { cursor } else { len };
            r.start == at && r.end == at
        }),
{
    let cursor = match anchor_end {
        Some(e) => e,
        None => range.end,
    };
    let at = if cursor < len { cursor } else { len };
    Range { start: at, end: at }
}

} // verus!
