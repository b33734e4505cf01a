//! Building an inline projection: the specification of the build as a
//! sequence of steps over the fragments, and the verified builder.

use crate::projection::{
    at_range, blen, expanded_kinds, fill_scaled, flen, plain_sum, plain_syntax, repeat, scaled_back,
    seg, touched, BuildInput, BuildState, ExpandedFootnoteSpan, ExpandedInlineKind,
    ExpandedInlineSegment, ExpandedInlineSegmentKind, ExpandedLinkSpan, InlineFragment, InlineStyle,
    ProjectedView, ProjectedFragment, InlineLink, open_marker_text, close_marker_text, fill_ramp, ramp,
    marker_style_for_projection, budget_sum, fbudget, lemma_sums_monotone, lemma_shown_kinds_len,
    candidate_kinds, ExpandedInlineProjection, marker_style, is_delimiter, delimiters_nonempty,
};
use vstd::string::StringExecFns;
use std::ops::Range;
use vstd::prelude::*;

verus! {

/// The link key of a fragment, if it carries a link.
pub open spec fn link_key(f: InlineFragment) -> Option<usize> {
    match f.link {
        Some(l) => Some(l.key),
        None => None,
    }
}

/// The end of the run of fragments from `j` on that carry link `key`.
pub open spec fn span_end_from(frags: Seq<InlineFragment>, j: nat, key: usize) -> nat
    decreases frags.len() - j,
{
    if j >= frags.len() {
        j
    } else if link_key(frags[j as int]) == Some(key) {
        span_end_from(frags, j + 1, key)
    } else {
        j
    }
}

/// A link run ends at or after where it is scanned from, and within the
/// fragments when it starts within them.
pub proof fn lemma_span_end_bounds(frags: Seq<InlineFragment>, j: nat, key: usize)
    ensures
        span_end_from(frags, j, key) >= j,
        j <= frags.len() ==> span_end_from(frags, j, key) <= frags.len(),
        forall|k: int| j <= k < span_end_from(frags, j, key) ==> link_key(#[trigger] frags[k]) == Some(key),
    decreases frags.len() - j,
{
    if j < frags.len() && link_key(frags[j as int]) == Some(key) {
        lemma_span_end_bounds(frags, j + 1, key);
    }
}

impl BuildState {
    /// Appends the label fragments `j..end` of a link run starting at
    /// plain offset `local`, with their own delimiters when the link is
    /// expanded.
    pub open spec fn emit_labels(
        self,
        input: BuildInput,
        j: nat,
        end: nat,
        local: nat,
        expand: bool,
        group: Option<usize>,
    ) -> BuildState
        decreases end - j,
    {
        if j >= end || j >= input.frags.len() {
            self
        } else {
            let f = input.frags[j as int];
            let range = Range { start: local as usize, end: (local + flen(f)) as usize };
            let kinds = if expand {
                expanded_kinds(input.frags, j as int, f.style, range, input.selected, input.marked)
            } else {
                seq![]
            };
            self.emit_fragment(
                ProjectedView::Source { fragment_index: j as usize },
                j,
                range,
                f.style,
                kinds,
                group,
                expand,
            ).emit_labels(input, j + 1, end, local + flen(f), expand, group)
        }
    }

    /// The footnote reference at the current fragment: `[^`, the editable
    /// id, `]`.
    pub open spec fn footnote_step(self, input: BuildInput) -> BuildState {
        let i = self.index;
        let f = input.frags[i as int];
        let len = flen(f);
        let start = self.plain;
        let end = start + len;
        let id = f.footnote->0.id@;
        let idl = blen(id);
        let d0 = self.display;
        let s1 = BuildState { any: true, ..self }.push_syntax(
            ProjectedView::Syntax {
                text: "[^"@,
                style: f.style,
                style_of: Some(i as usize),
                html_style_of: None,
                link_of: None,
                footnote_of: None,
            },
            "[^"@,
            ExpandedInlineSegmentKind::OpeningDelimiter(ExpandedInlineKind::Link),
            start as usize,
            i,
            None,
        );
        let s2 = BuildState {
            pieces: s1.pieces.push(
                ProjectedView::Syntax {
                    text: id,
                    style: f.style,
                    style_of: Some(i as usize),
                    html_style_of: Some(i as usize),
                    link_of: None,
                    footnote_of: Some(i as usize),
                },
            ),
            segments: s1.segments.push(
                seg(
                    s1.display,
                    idl,
                    Range { start: start as usize, end: end as usize },
                    i,
                    None,
                    ExpandedInlineSegmentKind::FootnoteIdText,
                ),
            ),
            p2d: fill_scaled(s1.p2d, start, len, s1.display, idl),
            d2p: s1.d2p + scaled_back(start, len, idl),
            display: s1.display + idl,
            ..s1
        };
        let s3 = s2.push_syntax(
            ProjectedView::Syntax {
                text: "]"@,
                style: f.style,
                style_of: Some(i as usize),
                html_style_of: None,
                link_of: None,
                footnote_of: None,
            },
            "]"@,
            ExpandedInlineSegmentKind::ClosingDelimiter(ExpandedInlineKind::Link),
            end as usize,
            i,
            None,
        );
        BuildState {
            footnotes: s3.footnotes.push(
                ExpandedFootnoteSpan {
                    fragment_index: i as usize,
                    plain_range: Range { start: start as usize, end: end as usize },
                    display_range: Range { start: d0 as usize, end: s3.display as usize },
                },
            ),
            plain: end,
            index: i + 1,
            ..s3
        }
    }

    /// The link run starting at the current fragment, shown with its
    /// syntax when the run is touched.
    pub open spec fn link_step(self, input: BuildInput) -> BuildState {
        let i = self.index;
        let f = input.frags[i as int];
        let link = f.link->0;
        let end_idx = span_end_from(input.frags, i + 1, link.key);
        let start = self.plain;
        let plain_end = plain_sum(input.frags, end_idx);
        let range = Range { start: start as usize, end: plain_end as usize };
        let expand = touched(range, input.selected, input.marked);
        let group = if expand {
            Some(self.links.len() as usize)
        } else {
            None
        };
        let d0 = self.display;
        let s1 = if expand {
            BuildState { any: true, ..self }.push_syntax(
                plain_syntax(link.open_marker@),
                link.open_marker@,
                ExpandedInlineSegmentKind::OpeningDelimiter(ExpandedInlineKind::Link),
                start as usize,
                i,
                group,
            )
        } else {
            self
        };
        let s2 = s1.emit_labels(input, i, end_idx, start, expand, group);
        let s_done = if expand {
            s2.link_tail(link, i, end_idx, range, d0, group)
        } else {
            s2
        };
        BuildState { plain: plain_end, index: end_idx, ..s_done }
    }

    /// The syntax after an expanded link's label: the middle marker, the
    /// editable target (when not empty) and the closing marker, and the
    /// link span recorded over `range`, displayed from `d0`.
    pub open spec fn link_tail(
        self,
        link: InlineLink,
        i: nat,
        end_idx: nat,
        range: Range<usize>,
        d0: nat,
        group: Option<usize>,
    ) -> BuildState {
        let plain_end = range.end;
        let s3 = match link.middle_marker {
            Some(m) => self.push_syntax(
                plain_syntax(m@),
                m@,
                ExpandedInlineSegmentKind::MiddleDelimiter(ExpandedInlineKind::Link),
                plain_end,
                i,
                group,
            ),
            None => self,
        };
        let td = s3.display;
        let s4 = match link.editable_text {
            Some(t) => if blen(t@) > 0 {
                s3.push_syntax(
                    ProjectedView::Syntax {
                        text: t@,
                        style: InlineStyle::plain_spec(),
                        style_of: None,
                        html_style_of: None,
                        link_of: Some(i as usize),
                        footnote_of: None,
                    },
                    t@,
                    ExpandedInlineSegmentKind::LinkTargetText,
                    plain_end,
                    i,
                    group,
                )
            } else {
                s3
            },
            None => s3,
        };
        let te = s4.display;
        let s5 = s4.push_syntax(
            plain_syntax(link.close_marker@),
            link.close_marker@,
            ExpandedInlineSegmentKind::ClosingDelimiter(ExpandedInlineKind::Link),
            plain_end,
            i,
            group,
        );
        BuildState {
            links: s5.links.push(
                ExpandedLinkSpan {
                    start_fragment_index: i as usize,
                    end_fragment_index: end_idx as usize,
                    plain_range: range,
                    display_range: Range { start: d0 as usize, end: s5.display as usize },
                    target_display_range: Range { start: td as usize, end: te as usize },
                },
            ),
            ..s5
        }
    }

    /// A footnote definition's leading fragment split at the end of its id
    /// `h`, with `]` shown after the id.
    pub open spec fn head_step(self, input: BuildInput, h: usize) -> BuildState {
        let i = self.index;
        let f = input.frags[i as int];
        let len = flen(f);
        let start = self.plain;
        let end = start + len;
        let split = (h - start) as usize;
        let s1 = self.emit_fragment(
            ProjectedView::SourcePart { fragment_index: i as usize, start: 0, end: split },
            i,
            Range { start: start as usize, end: h },
            f.style,
            seq![],
            None,
            false,
        );
        let s2 = s1.push_syntax(
            plain_syntax("]"@),
            "]"@,
            ExpandedInlineSegmentKind::BlockPrefix,
            h,
            i,
            None,
        );
        let s3 = BuildState { head_closed: true, any: true, ..s2 }.emit_fragment(
            ProjectedView::SourcePart { fragment_index: i as usize, start: split, end: len as usize },
            i,
            Range { start: h, end: end as usize },
            f.style,
            seq![],
            None,
            false,
        );
        BuildState { plain: end, index: i + 1, ..s3 }
    }

    /// An ordinary fragment with the delimiters of its shown styles.
    pub open spec fn plain_step(self, input: BuildInput) -> BuildState {
        let i = self.index;
        let f = input.frags[i as int];
        let start = self.plain;
        let end = start + flen(f);
        let range = Range { start: start as usize, end: end as usize };
        let kinds = expanded_kinds(input.frags, i as int, f.style, range, input.selected, input.marked);
        let s1 = self.emit_fragment(
            ProjectedView::Source { fragment_index: i as usize },
            i,
            range,
            f.style,
            kinds,
            None,
            false,
        );
        BuildState { plain: end, index: i + 1, ..s1 }
    }

    /// Whether the current fragment is split at the footnote id's end.
    pub open spec fn splits_head(self, input: BuildInput) -> bool {
        &&& !self.head_closed
        &&& input.head matches Some(h)
        &&& self.plain < h
        &&& h < self.plain + flen(input.frags[self.index as int])
    }

    /// One build step at the current fragment.
    pub open spec fn step(self, input: BuildInput) -> BuildState {
        let f = input.frags[self.index as int];
        if flen(f) == 0 {
            BuildState { index: self.index + 1, ..self }
        } else if f.footnote is Some {
            self.footnote_step(input)
        } else if f.link is Some {
            self.link_step(input)
        } else if self.splits_head(input) {
            self.head_step(input, input.head->0)
        } else {
            self.plain_step(input)
        }
    }

    /// The state after every remaining fragment is processed.
    pub open spec fn run(self, input: BuildInput) -> BuildState
        decreases input.frags.len() - self.index,
    {
        if self.index >= input.frags.len() {
            self
        } else {
            proof {
                let f = input.frags[self.index as int];
                if f.link is Some {
                    lemma_span_end_bounds(input.frags, self.index + 1, f.link->0.key);
                }
            }
            self.step(input).run(input)
        }
    }
}

/// The state before any fragment: the cursor maps at zero, then the block
/// prefix, if any and not empty, as the first segment.
pub open spec fn build_init(input: BuildInput, prefix: Option<Seq<char>>) -> BuildState {
    let plain_len = plain_sum(input.frags, input.frags.len());
    let base = BuildState {
        pieces: seq![],
        segments: seq![],
        p2d: repeat(0, plain_len + 1),
        d2p: seq![0usize],
        links: seq![],
        footnotes: seq![],
        plain: 0,
        display: 0,
        any: false,
        prefix_range: None,
        head_closed: input.head is None,
        index: 0,
    };
    match prefix {
        Some(p) => if p.len() > 0 {
            let plen = blen(p);
            BuildState {
                pieces: seq![plain_syntax(p)],
                segments: seq![
                    seg(0, plen, at_range(0), 0, None, ExpandedInlineSegmentKind::BlockPrefix),
                ],
                d2p: seq![0usize] + repeat(0, plen),
                p2d: repeat(plen as usize, plain_len + 1),
                display: plen,
                prefix_range: if input.head is None {
                    Some(Range { start: 0, end: plen as usize })
                } else {
                    None
                },
                any: true,
                ..base
            }
        } else {
            base
        },
        None => base,
    }
}

/// Whether a delimiter kind moves the caret inside its span: emphasis,
/// code, strikethrough and the Markdown scripts.
pub open spec fn caret_inside_kind(kind: ExpandedInlineKind) -> bool {
    match kind {
        ExpandedInlineKind::BoldMarkdown { .. } | ExpandedInlineKind::ItalicMarkdown { .. }
        | ExpandedInlineKind::Code | ExpandedInlineKind::Strikethrough
        | ExpandedInlineKind::SuperscriptMarkdown | ExpandedInlineKind::SubscriptMarkdown => true,
        _ => false,
    }
}

/// The caret at a delimited span's edge sits inside the delimiters: after
/// an opening one, before a closing one.
pub open spec fn fixup_entry(p2d: Seq<usize>, s: ExpandedInlineSegment) -> Seq<usize> {
    match s.kind {
        ExpandedInlineSegmentKind::OpeningDelimiter(k) => if caret_inside_kind(k) {
            p2d.update(s.plain_range.start as int, s.display_range.end)
        } else {
            p2d
        },
        ExpandedInlineSegmentKind::ClosingDelimiter(k) => if caret_inside_kind(k) {
            p2d.update(s.plain_range.start as int, s.display_range.start)
        } else {
            p2d
        },
        _ => p2d,
    }
}

/// The cursor map after the fixups of the first `n` segments.
pub open spec fn fixup(p2d: Seq<usize>, segs: Seq<ExpandedInlineSegment>, n: nat) -> Seq<usize>
    decreases n,
{
    if n == 0 {
        p2d
    } else {
        fixup_entry(fixup(p2d, segs, (n - 1) as nat), segs[n - 1])
    }
}

/// The display map so far never decreases and ends at plain offset `pos`.
pub open spec fn d2p_tracks(d2p: Seq<usize>, pos: int) -> bool {
    &&& d2p.len() > 0
    &&& d2p[d2p.len() - 1] == pos
    &&& forall|a: int, b: int| 0 <= a <= b < d2p.len() ==> #[trigger] d2p[a] <= #[trigger] d2p[b]
}

/// Appending non-decreasing offsets from the current end keeps the map
/// tracking, now at the last appended offset.
proof fn lemma_track_append(d: Seq<usize>, x: Seq<usize>, p: int, q: int)
    requires
        d2p_tracks(d, p),
        forall|k: int| 0 <= k < x.len() ==> p <= #[trigger] x[k],
        forall|a: int, b: int| 0 <= a <= b < x.len() ==> #[trigger] x[a] <= #[trigger] x[b],
        x.len() > 0 ==> x[x.len() - 1] == q,
        x.len() == 0 ==> q == p,
    ensures
        d2p_tracks(d + x, q),
{
    let r = d + x;
    assert forall|a: int, b: int| 0 <= a <= b < r.len() implies #[trigger] r[a] <= #[trigger] r[b] by {
        if b < d.len() {
            assert(r[a] == d[a] && r[b] == d[b]);
        } else if a < d.len() {
            assert(r[a] == d[a]);
            assert(d[a] <= d[d.len() - 1]);
            assert(r[b] == x[b - d.len()]);
        } else {
            assert(r[a] == x[a - d.len()] && r[b] == x[b - d.len()]);
        }
    }
    if x.len() == 0 {
        assert(r =~= d);
    } else {
        assert(r[r.len() - 1] == x[x.len() - 1]);
    }
}

/// Repeating the current end keeps the map tracking it.
proof fn lemma_track_repeat(d: Seq<usize>, p: usize, n: nat)
    requires
        d2p_tracks(d, p as int),
    ensures
        d2p_tracks(d + repeat(p, n), p as int),
{
    lemma_track_append(d, repeat(p, n), p as int, p as int);
}

/// Syntax pushed at the current end keeps the map tracking it.
proof fn lemma_track_push_syntax(
    st: BuildState,
    piece: ProjectedView,
    text: Seq<char>,
    kind: ExpandedInlineSegmentKind,
    at: usize,
    fi: nat,
    group: Option<usize>,
)
    requires
        d2p_tracks(st.d2p, at as int),
    ensures
        d2p_tracks(st.push_syntax(piece, text, kind, at, fi, group).d2p, at as int),
{
    lemma_track_repeat(st.d2p, at, blen(text));
}

proof fn lemma_track_open_all(
    st: BuildState,
    kinds: Seq<ExpandedInlineKind>,
    style: InlineStyle,
    fi: nat,
    at: usize,
    group: Option<usize>,
    k: nat,
)
    requires
        d2p_tracks(st.d2p, at as int),
    ensures
        d2p_tracks(st.open_all(kinds, style, fi, at, group, k).d2p, at as int),
    decreases k,
{
    if k > 0 {
        lemma_track_open_all(st, kinds, style, fi, at, group, (k - 1) as nat);
        let kind = kinds[k - 1];
        lemma_track_repeat(st.open_all(kinds, style, fi, at, group, (k - 1) as nat).d2p, at, blen(open_marker_text(kind)));
    }
}

proof fn lemma_track_close_all(
    st: BuildState,
    kinds: Seq<ExpandedInlineKind>,
    style: InlineStyle,
    fi: nat,
    at: usize,
    group: Option<usize>,
    k: nat,
)
    requires
        d2p_tracks(st.d2p, at as int),
    ensures
        d2p_tracks(st.close_all(kinds, style, fi, at, group, k).d2p, at as int),
    decreases k,
{
    if k > 0 {
        lemma_track_close_all(st, kinds, style, fi, at, group, (k - 1) as nat);
        let kind = kinds[kinds.len() - k];
        lemma_track_repeat(st.close_all(kinds, style, fi, at, group, (k - 1) as nat).d2p, at, blen(close_marker_text(kind)));
    }
}

/// A fragment over `range` moves the map's end from its start to its end.
proof fn lemma_track_emit(
    st: BuildState,
    piece: ProjectedView,
    fi: nat,
    range: Range<usize>,
    style: InlineStyle,
    kinds: Seq<ExpandedInlineKind>,
    group: Option<usize>,
    force_styled: bool,
)
    requires
        d2p_tracks(st.d2p, range.start as int),
        range.start <= range.end,
    ensures
        d2p_tracks(st.emit_fragment(piece, fi, range, style, kinds, group, force_styled).d2p, range.end as int),
{
    let opened = st.open_all(kinds, style, fi, range.start, group, kinds.len());
    lemma_track_open_all(st, kinds, style, fi, range.start, group, kinds.len());
    let len = (range.end - range.start) as nat;
    let x = ramp(range.start, len);
    assert forall|k: int| 0 <= k < x.len() implies range.start <= #[trigger] x[k] by {}
    assert forall|a: int, b: int| 0 <= a <= b < x.len() implies #[trigger] x[a] <= #[trigger] x[b] by {}
    lemma_track_append(opened.d2p, x, range.start as int, range.end as int);
    let kind = if kinds.len() == 0 && !force_styled {
        ExpandedInlineSegmentKind::PlainText
    } else {
        ExpandedInlineSegmentKind::StyledText
    };
    let texted = opened.push_text(piece, range, fi, group, kind);
    lemma_track_close_all(texted, kinds, style, fi, range.end, group, kinds.len());
}

/// The label fragments `j..end` of a link run move the map's end from
/// their start to their end.
proof fn lemma_track_labels(
    st: BuildState,
    input: BuildInput,
    j: nat,
    end: nat,
    local: nat,
    expand: bool,
    group: Option<usize>,
)
    requires
        d2p_tracks(st.d2p, local as int),
        local == plain_sum(input.frags, j),
        j <= end <= input.frags.len(),
        plain_sum(input.frags, input.frags.len()) <= usize::MAX,
    ensures
        d2p_tracks(st.emit_labels(input, j, end, local, expand, group).d2p, plain_sum(input.frags, end) as int),
    decreases end - j,
{
    if j < end {
        let f = input.frags[j as int];
        lemma_sums_monotone(input.frags, j + 1, input.frags.len());
        assert(plain_sum(input.frags, j + 1) == local + flen(f));
        let range = Range { start: local as usize, end: (local + flen(f)) as usize };
        let kinds = if expand {
            expanded_kinds(input.frags, j as int, f.style, range, input.selected, input.marked)
        } else {
            seq![]
        };
        lemma_track_emit(st, ProjectedView::Source { fragment_index: j as usize }, j, range, f.style, kinds, group, expand);
        let s1 = st.emit_fragment(ProjectedView::Source { fragment_index: j as usize }, j, range, f.style, kinds, group, expand);
        lemma_track_labels(s1, input, j + 1, end, local + flen(f), expand, group);
    }
}

/// The syntax after an expanded link's label keeps the map at the link's
/// end.
proof fn lemma_track_link_tail(
    st: BuildState,
    link: InlineLink,
    i: nat,
    end_idx: nat,
    range: Range<usize>,
    d0: nat,
    group: Option<usize>,
)
    requires
        d2p_tracks(st.d2p, range.end as int),
    ensures
        d2p_tracks(st.link_tail(link, i, end_idx, range, d0, group).d2p, range.end as int),
{
    let plain_end = range.end;
    let s3 = match link.middle_marker {
        Some(m) => st.push_syntax(
            plain_syntax(m@),
            m@,
            ExpandedInlineSegmentKind::MiddleDelimiter(ExpandedInlineKind::Link),
            plain_end,
            i,
            group,
        ),
        None => st,
    };
    match link.middle_marker {
        Some(m) => lemma_track_repeat(st.d2p, plain_end, blen(m@)),
        None => {},
    }
    let s4 = match link.editable_text {
        Some(t) => if blen(t@) > 0 {
            s3.push_syntax(
                ProjectedView::Syntax {
                    text: t@,
                    style: InlineStyle::plain_spec(),
                    style_of: None,
                    html_style_of: None,
                    link_of: Some(i as usize),
                    footnote_of: None,
                },
                t@,
                ExpandedInlineSegmentKind::LinkTargetText,
                plain_end,
                i,
                group,
            )
        } else {
            s3
        },
        None => s3,
    };
    match link.editable_text {
        Some(t) => if blen(t@) > 0 {
            lemma_track_repeat(s3.d2p, plain_end, blen(t@));
        },
        None => {},
    }
    lemma_track_repeat(s4.d2p, plain_end, blen(link.close_marker@));
}

/// One build step keeps the map tracking the plain offset reached.
proof fn lemma_track_step(st: BuildState, input: BuildInput)
    requires
        d2p_tracks(st.d2p, st.plain as int),
        st.plain == plain_sum(input.frags, st.index),
        st.index < input.frags.len(),
        plain_sum(input.frags, input.frags.len()) <= usize::MAX,
    ensures
        d2p_tracks(st.step(input).d2p, st.step(input).plain as int),
        st.step(input).plain == plain_sum(input.frags, st.step(input).index),
        st.index < st.step(input).index <= input.frags.len(),
{
    let i = st.index;
    let f = input.frags[i as int];
    lemma_sums_monotone(input.frags, i + 1, input.frags.len());
    assert(plain_sum(input.frags, i + 1) == st.plain + flen(f));
    let start = st.plain;
    let end = start + flen(f);
    if flen(f) == 0 {
    } else if f.footnote is Some {
        let len = flen(f);
        let id = f.footnote->0.id@;
        let idl = blen(id);
        lemma_footnote_marker_lens();
        let s1 = BuildState { any: true, ..st }.push_syntax(
            ProjectedView::Syntax {
                text: "[^"@,
                style: f.style,
                style_of: Some(i as usize),
                html_style_of: None,
                link_of: None,
                footnote_of: None,
            },
            "[^"@,
            ExpandedInlineSegmentKind::OpeningDelimiter(ExpandedInlineKind::Link),
            start as usize,
            i,
            None,
        );
        lemma_track_repeat(st.d2p, start as usize, 2);
        let x = scaled_back(start, len, idl);
        assert forall|k: int| 0 <= k < x.len() implies start <= #[trigger] x[k] && x[k] <= end by {
            lemma_scaled_le(len as int, k + 1, idl as int);
        }
        assert forall|a: int, b: int| 0 <= a <= b < x.len() implies #[trigger] x[a] <= #[trigger] x[b] by {
            lemma_scaled_le(len as int, a + 1, idl as int);
            lemma_scaled_le(len as int, b + 1, idl as int);
            assert(len * (a + 1) <= len * (b + 1)) by (nonlinear_arith)
                requires
                    0 <= a <= b,
            ;
            vstd::arithmetic::div_mod::lemma_div_is_ordered(len * (a + 1), len * (b + 1), idl as int);
        }
        let q = if idl > 0 { x[idl - 1] as int } else { start as int };
        if idl > 0 {
            assert(((len as int) * (idl as int)) / (idl as int) == len as int) by {
                assert((len as int) * (idl as int) == (idl as int) * (len as int)) by (nonlinear_arith);
                vstd::arithmetic::div_mod::lemma_div_multiples_vanish(len as int, idl as int);
            }
            assert(x[idl - 1] == end);
        }
        lemma_track_append(s1.d2p, x, start as int, q);
        lemma_track_append(s1.d2p + x, repeat(end as usize, 1), q, end as int);
    } else if f.link is Some {
        let link = f.link->0;
        lemma_span_end_bounds(input.frags, i + 1, link.key);
        let end_idx = span_end_from(input.frags, i + 1, link.key);
        let plain_end = plain_sum(input.frags, end_idx);
        lemma_sums_monotone(input.frags, end_idx, input.frags.len());
        let range = Range { start: start as usize, end: plain_end as usize };
        let expand = touched(range, input.selected, input.marked);
        let group = if expand {
            Some(st.links.len() as usize)
        } else {
            None
        };
        let d0 = st.display;
        let s1 = if expand {
            BuildState { any: true, ..st }.push_syntax(
                plain_syntax(link.open_marker@),
                link.open_marker@,
                ExpandedInlineSegmentKind::OpeningDelimiter(ExpandedInlineKind::Link),
                start as usize,
                i,
                group,
            )
        } else {
            st
        };
        if expand {
            lemma_track_repeat(st.d2p, start as usize, blen(link.open_marker@));
        }
        lemma_track_labels(s1, input, i, end_idx, start, expand, group);
        let s2 = s1.emit_labels(input, i, end_idx, start, expand, group);
        if expand {
            lemma_track_link_tail(s2, link, i, end_idx, range, d0, group);
        }
    } else if st.splits_head(input) {
        let h = input.head->0;
        let split = (h - start) as usize;
        let s1 = st.emit_fragment(
            ProjectedView::SourcePart { fragment_index: i as usize, start: 0, end: split },
            i,
            Range { start: start as usize, end: h },
            f.style,
            seq![],
            None,
            false,
        );
        lemma_track_emit(
            st,
            ProjectedView::SourcePart { fragment_index: i as usize, start: 0, end: split },
            i,
            Range { start: start as usize, end: h },
            f.style,
            seq![],
            None,
            false,
        );
        let s2 = s1.push_syntax(plain_syntax("]"@), "]"@, ExpandedInlineSegmentKind::BlockPrefix, h, i, None);
        lemma_track_repeat(s1.d2p, h, blen("]"@));
        lemma_track_emit(
            BuildState { head_closed: true, any: true, ..s2 },
            ProjectedView::SourcePart { fragment_index: i as usize, start: split, end: flen(f) as usize },
            i,
            Range { start: h, end: end as usize },
            f.style,
            seq![],
            None,
            false,
        );
    } else {
        let range = Range { start: start as usize, end: end as usize };
        let kinds = expanded_kinds(input.frags, i as int, f.style, range, input.selected, input.marked);
        lemma_track_emit(st, ProjectedView::Source { fragment_index: i as usize }, i, range, f.style, kinds, None, false);
    }
}

/// The rest of the build keeps the map tracking, and ends at the plain
/// length.
proof fn lemma_track_run(st: BuildState, input: BuildInput)
    requires
        d2p_tracks(st.d2p, st.plain as int),
        st.plain == plain_sum(input.frags, st.index),
        st.index <= input.frags.len(),
        plain_sum(input.frags, input.frags.len()) <= usize::MAX,
    ensures
        d2p_tracks(st.run(input).d2p, plain_sum(input.frags, input.frags.len()) as int),
    decreases input.frags.len() - st.index,
{
    if st.index < input.frags.len() {
        lemma_track_step(st, input);
        lemma_track_run(st.step(input), input);
    }
}

/// The display map of a finished build never decreases and ends at the
/// plain length.
pub proof fn lemma_build_display_map(input: BuildInput, prefix: Option<Seq<char>>)
    requires
        plain_sum(input.frags, input.frags.len()) <= usize::MAX,
    ensures
        d2p_tracks(build_final(input, prefix).d2p, plain_sum(input.frags, input.frags.len()) as int),
{
    let st = build_init(input, prefix);
    match prefix {
        Some(p) => if p.len() > 0 {
            lemma_track_repeat(seq![0usize], 0, blen(p));
        },
        None => {},
    }
    assert(d2p_tracks(seq![0usize], 0));
    lemma_track_run(st, input);
}

/// The carets of a build up to plain offset `pos` are consistent: the
/// display map tracks `pos`; every plain caret up to `pos` maps to a display
/// caret that maps back to it; and both edges of every delimiter map back
/// to the delimiter's plain offset.
pub open spec fn carets_ok(st: BuildState, pos: int) -> bool {
    &&& d2p_tracks(st.d2p, pos)
    &&& st.d2p.len() == st.display + 1
    &&& 0 <= pos < st.p2d.len()
    &&& forall|q: int| 0 <= q <= pos ==> (#[trigger] st.p2d[q]) < st.d2p.len() && st.d2p[st.p2d[q] as int] == q
    &&& forall|i: int|
        0 <= i < st.segments.len() && is_delimiter((#[trigger] st.segments[i]).kind) ==> {
            &&& st.segments[i].display_range.start <= st.segments[i].display_range.end
            &&& (st.segments[i].display_range.end as int) < st.d2p.len()
            &&& st.d2p[st.segments[i].display_range.start as int] == st.segments[i].plain_range.start
            &&& st.d2p[st.segments[i].display_range.end as int] == st.segments[i].plain_range.start
        }
}

proof fn lemma_carets_syntax(
    st: BuildState,
    piece: ProjectedView,
    text: Seq<char>,
    kind: ExpandedInlineSegmentKind,
    at: usize,
    fi: nat,
    group: Option<usize>,
)
    requires
        carets_ok(st, at as int),
        st.display + blen(text) < usize::MAX,
    ensures
        carets_ok(st.push_syntax(piece, text, kind, at, fi, group), at as int),
{
    let r = st.push_syntax(piece, text, kind, at, fi, group);
    lemma_track_repeat(st.d2p, at, blen(text));
    let n = st.segments.len();
    assert forall|i: int| 0 <= i < r.segments.len() && is_delimiter((#[trigger] r.segments[i]).kind) implies {
        &&& r.segments[i].display_range.start <= r.segments[i].display_range.end
        &&& (r.segments[i].display_range.end as int) < r.d2p.len()
        &&& r.d2p[r.segments[i].display_range.start as int] == r.segments[i].plain_range.start
        &&& r.d2p[r.segments[i].display_range.end as int] == r.segments[i].plain_range.start
    } by {
        if i < n {
            assert(r.segments[i] == st.segments[i]);
            assert(r.d2p[st.segments[i].display_range.start as int] == st.d2p[st.segments[i].display_range.start as int]);
            assert(r.d2p[st.segments[i].display_range.end as int] == st.d2p[st.segments[i].display_range.end as int]);
        } else {
            assert(r.d2p[st.display as int] == st.d2p[st.display as int]);
        }
    }
    assert forall|q: int| 0 <= q <= at implies (#[trigger] r.p2d[q]) < r.d2p.len() && r.d2p[r.p2d[q] as int] == q by {
        assert(r.d2p[st.p2d[q] as int] == st.d2p[st.p2d[q] as int]);
    }
}

proof fn lemma_carets_open_all(
    st: BuildState,
    kinds: Seq<ExpandedInlineKind>,
    style: InlineStyle,
    fi: nat,
    at: usize,
    group: Option<usize>,
    k: nat,
    bound: nat,
)
    requires
        carets_ok(st, at as int),
        st.open_all(kinds, style, fi, at, group, k).display <= bound,
        bound < usize::MAX,
    ensures
        carets_ok(st.open_all(kinds, style, fi, at, group, k), at as int),
        st.open_all(kinds, style, fi, at, group, k).p2d == st.p2d,
    decreases k,
{
    if k > 0 {
        let prev = st.open_all(kinds, style, fi, at, group, (k - 1) as nat);
        let kind = kinds[k - 1];
        lemma_carets_open_all(st, kinds, style, fi, at, group, (k - 1) as nat, bound);
        lemma_carets_syntax(
            prev,
            ProjectedView::Syntax {
                text: open_marker_text(kind),
                style: marker_style(style, kind),
                style_of: Some(fi as usize),
                html_style_of: Some(fi as usize),
                link_of: None,
                footnote_of: None,
            },
            open_marker_text(kind),
            ExpandedInlineSegmentKind::OpeningDelimiter(kind),
            at,
            fi,
            group,
        );
    }
}

proof fn lemma_carets_close_all(
    st: BuildState,
    kinds: Seq<ExpandedInlineKind>,
    style: InlineStyle,
    fi: nat,
    at: usize,
    group: Option<usize>,
    k: nat,
    bound: nat,
)
    requires
        carets_ok(st, at as int),
        st.close_all(kinds, style, fi, at, group, k).display <= bound,
        bound < usize::MAX,
    ensures
        carets_ok(st.close_all(kinds, style, fi, at, group, k), at as int),
        st.close_all(kinds, style, fi, at, group, k).p2d == st.p2d,
    decreases k,
{
    if k > 0 {
        let prev = st.close_all(kinds, style, fi, at, group, (k - 1) as nat);
        let kind = kinds[kinds.len() - k];
        lemma_carets_close_all(st, kinds, style, fi, at, group, (k - 1) as nat, bound);
        lemma_carets_syntax(
            prev,
            ProjectedView::Syntax {
                text: close_marker_text(kind),
                style: marker_style(style, kind),
                style_of: Some(fi as usize),
                html_style_of: Some(fi as usize),
                link_of: None,
                footnote_of: None,
            },
            close_marker_text(kind),
            ExpandedInlineSegmentKind::ClosingDelimiter(kind),
            at,
            fi,
            group,
        );
    }
}

proof fn lemma_close_all_grows(
    st: BuildState,
    kinds: Seq<ExpandedInlineKind>,
    style: InlineStyle,
    fi: nat,
    at: usize,
    group: Option<usize>,
    k: nat,
)
    ensures
        st.close_all(kinds, style, fi, at, group, k).display >= st.display,
    decreases k,
{
    if k > 0 {
        lemma_close_all_grows(st, kinds, style, fi, at, group, (k - 1) as nat);
    }
}

proof fn lemma_carets_emit(
    st: BuildState,
    piece: ProjectedView,
    fi: nat,
    range: Range<usize>,
    style: InlineStyle,
    kinds: Seq<ExpandedInlineKind>,
    group: Option<usize>,
    force_styled: bool,
    bound: nat,
)
    requires
        carets_ok(st, range.start as int),
        range.start <= range.end < st.p2d.len(),
        st.emit_fragment(piece, fi, range, style, kinds, group, force_styled).display <= bound,
        bound < usize::MAX,
    ensures
        carets_ok(st.emit_fragment(piece, fi, range, style, kinds, group, force_styled), range.end as int),
        st.emit_fragment(piece, fi, range, style, kinds, group, force_styled).p2d.len() == st.p2d.len(),
{
    let opened = st.open_all(kinds, style, fi, range.start, group, kinds.len());
    let kind = if kinds.len() == 0 && !force_styled {
        ExpandedInlineSegmentKind::PlainText
    } else {
        ExpandedInlineSegmentKind::StyledText
    };
    let texted = opened.push_text(piece, range, fi, group, kind);
    lemma_close_all_grows(texted, kinds, style, fi, range.end, group, kinds.len());
    assert(texted.display <= bound);
    lemma_carets_open_all(st, kinds, style, fi, range.start, group, kinds.len(), bound);
    let len = (range.end - range.start) as nat;
    let x = ramp(range.start, len);
    assert forall|k: int| 0 <= k < x.len() implies range.start <= #[trigger] x[k] by {}
    assert forall|a: int, b: int| 0 <= a <= b < x.len() implies #[trigger] x[a] <= #[trigger] x[b] by {}
    lemma_track_append(opened.d2p, x, range.start as int, range.end as int);
    let d = opened.display;
    assert(texted.p2d.len() == opened.p2d.len());
    assert forall|q: int| 0 <= q <= range.end implies (#[trigger] texted.p2d[q]) < texted.d2p.len()
        && texted.d2p[texted.p2d[q] as int] == q by {
        if q < range.start {
            assert(texted.p2d[q] == opened.p2d[q]);
            assert(texted.d2p[opened.p2d[q] as int] == opened.d2p[opened.p2d[q] as int]);
        } else {
            assert(texted.p2d[q] == (d + (q - range.start)) as usize);
            if q == range.start {
                assert(texted.d2p[d as int] == opened.d2p[d as int]);
            } else {
                assert(texted.d2p[d + (q - range.start)] == x[q - range.start - 1]);
            }
        }
    }
    let n = opened.segments.len();
    assert forall|i: int| 0 <= i < texted.segments.len() && is_delimiter((#[trigger] texted.segments[i]).kind) implies {
        &&& texted.segments[i].display_range.start <= texted.segments[i].display_range.end
        &&& (texted.segments[i].display_range.end as int) < texted.d2p.len()
        &&& texted.d2p[texted.segments[i].display_range.start as int] == texted.segments[i].plain_range.start
        &&& texted.d2p[texted.segments[i].display_range.end as int] == texted.segments[i].plain_range.start
    } by {
        if i < n {
            assert(texted.segments[i] == opened.segments[i]);
            assert(texted.d2p[opened.segments[i].display_range.start as int] == opened.d2p[opened.segments[i].display_range.start as int]);
            assert(texted.d2p[opened.segments[i].display_range.end as int] == opened.d2p[opened.segments[i].display_range.end as int]);
        }
    }
    assert(carets_ok(texted, range.end as int));
    lemma_carets_close_all(texted, kinds, style, fi, range.end, group, kinds.len(), bound);
}

proof fn lemma_open_all_grows(
    st: BuildState,
    kinds: Seq<ExpandedInlineKind>,
    style: InlineStyle,
    fi: nat,
    at: usize,
    group: Option<usize>,
    k: nat,
)
    ensures
        st.open_all(kinds, style, fi, at, group, k).display >= st.display,
    decreases k,
{
    if k > 0 {
        lemma_open_all_grows(st, kinds, style, fi, at, group, (k - 1) as nat);
    }
}

proof fn lemma_emit_grows(
    st: BuildState,
    piece: ProjectedView,
    fi: nat,
    range: Range<usize>,
    style: InlineStyle,
    kinds: Seq<ExpandedInlineKind>,
    group: Option<usize>,
    force_styled: bool,
)
    ensures
        st.emit_fragment(piece, fi, range, style, kinds, group, force_styled).display >= st.display,
{
    let opened = st.open_all(kinds, style, fi, range.start, group, kinds.len());
    lemma_open_all_grows(st, kinds, style, fi, range.start, group, kinds.len());
    let kind = if kinds.len() == 0 && !force_styled {
        ExpandedInlineSegmentKind::PlainText
    } else {
        ExpandedInlineSegmentKind::StyledText
    };
    let texted = opened.push_text(piece, range, fi, group, kind);
    lemma_close_all_grows(texted, kinds, style, fi, range.end, group, kinds.len());
}

proof fn lemma_labels_grows(
    st: BuildState,
    input: BuildInput,
    j: nat,
    end: nat,
    local: nat,
    expand: bool,
    group: Option<usize>,
)
    ensures
        st.emit_labels(input, j, end, local, expand, group).display >= st.display,
    decreases end - j,
{
    if !(j >= end || j >= input.frags.len()) {
        let f = input.frags[j as int];
        let range = Range { start: local as usize, end: (local + flen(f)) as usize };
        let kinds = if expand {
            expanded_kinds(input.frags, j as int, f.style, range, input.selected, input.marked)
        } else {
            seq![]
        };
        lemma_emit_grows(st, ProjectedView::Source { fragment_index: j as usize }, j, range, f.style, kinds, group, expand);
        let s1 = st.emit_fragment(ProjectedView::Source { fragment_index: j as usize }, j, range, f.style, kinds, group, expand);
        lemma_labels_grows(s1, input, j + 1, end, local + flen(f), expand, group);
    }
}

proof fn lemma_step_grows(st: BuildState, input: BuildInput)
    requires
        st.index < input.frags.len(),
    ensures
        st.step(input).display >= st.display,
{
    let i = st.index;
    let f = input.frags[i as int];
    if flen(f) == 0 {
    } else if f.footnote is Some {
    } else if f.link is Some {
        let link = f.link->0;
        let end_idx = span_end_from(input.frags, i + 1, link.key);
        let start = st.plain;
        let plain_end = plain_sum(input.frags, end_idx);
        let range = Range { start: start as usize, end: plain_end as usize };
        let expand = touched(range, input.selected, input.marked);
        let group = if expand {
            Some(st.links.len() as usize)
        } else {
            None
        };
        let s1 = if expand {
            BuildState { any: true, ..st }.push_syntax(
                plain_syntax(link.open_marker@),
                link.open_marker@,
                ExpandedInlineSegmentKind::OpeningDelimiter(ExpandedInlineKind::Link),
                start as usize,
                i,
                group,
            )
        } else {
            st
        };
        lemma_labels_grows(s1, input, i, end_idx, start, expand, group);
    } else if st.splits_head(input) {
        let h = input.head->0;
        let start = st.plain;
        let end = start + flen(f);
        let split = (h - start) as usize;
        lemma_emit_grows(
            st,
            ProjectedView::SourcePart { fragment_index: i as usize, start: 0, end: split },
            i,
            Range { start: start as usize, end: h },
            f.style,
            seq![],
            None,
            false,
        );
        let s1 = st.emit_fragment(
            ProjectedView::SourcePart { fragment_index: i as usize, start: 0, end: split },
            i,
            Range { start: start as usize, end: h },
            f.style,
            seq![],
            None,
            false,
        );
        let s2 = s1.push_syntax(plain_syntax("]"@), "]"@, ExpandedInlineSegmentKind::BlockPrefix, h, i, None);
        lemma_emit_grows(
            BuildState { head_closed: true, any: true, ..s2 },
            ProjectedView::SourcePart { fragment_index: i as usize, start: split, end: flen(f) as usize },
            i,
            Range { start: h, end: end as usize },
            f.style,
            seq![],
            None,
            false,
        );
    } else {
        let start = st.plain;
        let end = start + flen(f);
        let range = Range { start: start as usize, end: end as usize };
        let kinds = expanded_kinds(input.frags, i as int, f.style, range, input.selected, input.marked);
        lemma_emit_grows(st, ProjectedView::Source { fragment_index: i as usize }, i, range, f.style, kinds, None, false);
    }
}

proof fn lemma_run_grows(st: BuildState, input: BuildInput)
    ensures
        st.run(input).display >= st.display,
    decreases input.frags.len() - st.index,
{
    if st.index < input.frags.len() {
        let f = input.frags[st.index as int];
        if f.link is Some {
            lemma_span_end_bounds(input.frags, st.index + 1, f.link->0.key);
        }
        lemma_step_grows(st, input);
        lemma_run_grows(st.step(input), input);
    }
}

proof fn lemma_carets_labels(
    st: BuildState,
    input: BuildInput,
    j: nat,
    end: nat,
    local: nat,
    expand: bool,
    group: Option<usize>,
    bound: nat,
)
    requires
        carets_ok(st, local as int),
        local == plain_sum(input.frags, j),
        j <= end <= input.frags.len(),
        plain_sum(input.frags, input.frags.len()) < st.p2d.len(),
        plain_sum(input.frags, input.frags.len()) <= usize::MAX,
        st.emit_labels(input, j, end, local, expand, group).display <= bound,
        bound < usize::MAX,
    ensures
        carets_ok(st.emit_labels(input, j, end, local, expand, group), plain_sum(input.frags, end) as int),
        st.emit_labels(input, j, end, local, expand, group).p2d.len() == st.p2d.len(),
    decreases end - j,
{
    if j < end {
        let f = input.frags[j as int];
        lemma_sums_monotone(input.frags, j + 1, input.frags.len());
        assert(plain_sum(input.frags, j + 1) == local + flen(f));
        let range = Range { start: local as usize, end: (local + flen(f)) as usize };
        let kinds = if expand {
            expanded_kinds(input.frags, j as int, f.style, range, input.selected, input.marked)
        } else {
            seq![]
        };
        let s1 = st.emit_fragment(ProjectedView::Source { fragment_index: j as usize }, j, range, f.style, kinds, group, expand);
        lemma_labels_grows(s1, input, j + 1, end, local + flen(f), expand, group);
        lemma_carets_emit(st, ProjectedView::Source { fragment_index: j as usize }, j, range, f.style, kinds, group, expand, bound);
        lemma_carets_labels(s1, input, j + 1, end, local + flen(f), expand, group, bound);
    }
}

proof fn lemma_carets_link_tail(
    st: BuildState,
    link: InlineLink,
    i: nat,
    end_idx: nat,
    range: Range<usize>,
    d0: nat,
    group: Option<usize>,
    bound: nat,
)
    requires
        carets_ok(st, range.end as int),
        st.link_tail(link, i, end_idx, range, d0, group).display <= bound,
        bound < usize::MAX,
    ensures
        carets_ok(st.link_tail(link, i, end_idx, range, d0, group), range.end as int),
        st.link_tail(link, i, end_idx, range, d0, group).p2d == st.p2d,
{
    let plain_end = range.end;
    let s3 = match link.middle_marker {
        Some(m) => st.push_syntax(
            plain_syntax(m@),
            m@,
            ExpandedInlineSegmentKind::MiddleDelimiter(ExpandedInlineKind::Link),
            plain_end,
            i,
            group,
        ),
        None => st,
    };
    let s4 = match link.editable_text {
        Some(t) => if blen(t@) > 0 {
            s3.push_syntax(
                ProjectedView::Syntax {
                    text: t@,
                    style: InlineStyle::plain_spec(),
                    style_of: None,
                    html_style_of: None,
                    link_of: Some(i as usize),
                    footnote_of: None,
                },
                t@,
                ExpandedInlineSegmentKind::LinkTargetText,
                plain_end,
                i,
                group,
            )
        } else {
            s3
        },
        None => s3,
    };
    match link.middle_marker {
        Some(m) => lemma_carets_syntax(
            st,
            plain_syntax(m@),
            m@,
            ExpandedInlineSegmentKind::MiddleDelimiter(ExpandedInlineKind::Link),
            plain_end,
            i,
            group,
        ),
        None => {},
    }
    match link.editable_text {
        Some(t) => if blen(t@) > 0 {
            lemma_carets_syntax(
                s3,
                ProjectedView::Syntax {
                    text: t@,
                    style: InlineStyle::plain_spec(),
                    style_of: None,
                    html_style_of: None,
                    link_of: Some(i as usize),
                    footnote_of: None,
                },
                t@,
                ExpandedInlineSegmentKind::LinkTargetText,
                plain_end,
                i,
                group,
            );
        },
        None => {},
    }
    lemma_carets_syntax(
        s4,
        plain_syntax(link.close_marker@),
        link.close_marker@,
        ExpandedInlineSegmentKind::ClosingDelimiter(ExpandedInlineKind::Link),
        plain_end,
        i,
        group,
    );
}

/// No fragment carries a footnote reference.
pub open spec fn no_footnotes(frags: Seq<InlineFragment>) -> bool {
    forall|i: int| 0 <= i < frags.len() ==> (#[trigger] frags[i]).footnote is None
}

proof fn lemma_carets_link_step(st: BuildState, input: BuildInput, bound: nat)
    requires
        carets_ok(st, st.plain as int),
        st.plain == plain_sum(input.frags, st.index),
        st.index < input.frags.len(),
        plain_sum(input.frags, input.frags.len()) < st.p2d.len(),
        plain_sum(input.frags, input.frags.len()) <= usize::MAX,
        st.step(input).display <= bound,
        bound < usize::MAX,
        flen(input.frags[st.index as int]) > 0 && input.frags[st.index as int].footnote is None && input.frags[st.index as int].link is Some,
    ensures
        carets_ok(st.step(input), st.step(input).plain as int),
        st.step(input).p2d.len() == st.p2d.len(),
{
    let i = st.index;
    let f = input.frags[i as int];
    lemma_sums_monotone(input.frags, i + 1, input.frags.len());
    assert(plain_sum(input.frags, i + 1) == st.plain + flen(f));
    lemma_track_step(st, input);
    let start = st.plain;
    let end = start + flen(f);
        let link = f.link->0;
        lemma_span_end_bounds(input.frags, i + 1, link.key);
        let end_idx = span_end_from(input.frags, i + 1, link.key);
        let plain_end = plain_sum(input.frags, end_idx);
        lemma_sums_monotone(input.frags, end_idx, input.frags.len());
        let range = Range { start: start as usize, end: plain_end as usize };
        let expand = touched(range, input.selected, input.marked);
        let group = if expand {
            Some(st.links.len() as usize)
        } else {
            None
        };
        let d0 = st.display;
        let s1 = if expand {
            BuildState { any: true, ..st }.push_syntax(
                plain_syntax(link.open_marker@),
                link.open_marker@,
                ExpandedInlineSegmentKind::OpeningDelimiter(ExpandedInlineKind::Link),
                start as usize,
                i,
                group,
            )
        } else {
            st
        };
        let s2 = s1.emit_labels(input, i, end_idx, start, expand, group);
        lemma_labels_grows(s1, input, i, end_idx, start, expand, group);
        if expand {
            let s5 = s2.link_tail(link, i, end_idx, range, d0, group);
            assert(s5.display >= s2.display);
            lemma_carets_syntax(
                BuildState { any: true, ..st },
                plain_syntax(link.open_marker@),
                link.open_marker@,
                ExpandedInlineSegmentKind::OpeningDelimiter(ExpandedInlineKind::Link),
                start as usize,
                i,
                group,
            );
        }
        lemma_carets_labels(s1, input, i, end_idx, start, expand, group, bound);
        if expand {
            lemma_carets_link_tail(s2, link, i, end_idx, range, d0, group, bound);
        }
}

proof fn lemma_carets_head_step(st: BuildState, input: BuildInput, bound: nat)
    requires
        carets_ok(st, st.plain as int),
        st.plain == plain_sum(input.frags, st.index),
        st.index < input.frags.len(),
        plain_sum(input.frags, input.frags.len()) < st.p2d.len(),
        plain_sum(input.frags, input.frags.len()) <= usize::MAX,
        st.step(input).display <= bound,
        bound < usize::MAX,
        flen(input.frags[st.index as int]) > 0 && input.frags[st.index as int].footnote is None && input.frags[st.index as int].link is None && st.splits_head(input),
    ensures
        carets_ok(st.step(input), st.step(input).plain as int),
        st.step(input).p2d.len() == st.p2d.len(),
{
    let i = st.index;
    let f = input.frags[i as int];
    lemma_sums_monotone(input.frags, i + 1, input.frags.len());
    assert(plain_sum(input.frags, i + 1) == st.plain + flen(f));
    lemma_track_step(st, input);
    let start = st.plain;
    let end = start + flen(f);
        let h = input.head->0;
        let split = (h - start) as usize;
        let s1 = st.emit_fragment(
            ProjectedView::SourcePart { fragment_index: i as usize, start: 0, end: split },
            i,
            Range { start: start as usize, end: h },
            f.style,
            seq![],
            None,
            false,
        );
        let s2 = s1.push_syntax(plain_syntax("]"@), "]"@, ExpandedInlineSegmentKind::BlockPrefix, h, i, None);
        let s2b = BuildState { head_closed: true, any: true, ..s2 };
        lemma_emit_grows(
            s2b,
            ProjectedView::SourcePart { fragment_index: i as usize, start: split, end: flen(f) as usize },
            i,
            Range { start: h, end: end as usize },
            f.style,
            seq![],
            None,
            false,
        );
        lemma_carets_emit(
            st,
            ProjectedView::SourcePart { fragment_index: i as usize, start: 0, end: split },
            i,
            Range { start: start as usize, end: h },
            f.style,
            seq![],
            None,
            false,
            bound,
        );
        lemma_carets_syntax(s1, plain_syntax("]"@), "]"@, ExpandedInlineSegmentKind::BlockPrefix, h, i, None);
        lemma_carets_emit(
            s2b,
            ProjectedView::SourcePart { fragment_index: i as usize, start: split, end: flen(f) as usize },
            i,
            Range { start: h, end: end as usize },
            f.style,
            seq![],
            None,
            false,
            bound,
        );
}

proof fn lemma_carets_step(st: BuildState, input: BuildInput, bound: nat)
    requires
        carets_ok(st, st.plain as int),
        no_footnotes(input.frags),
        st.plain == plain_sum(input.frags, st.index),
        st.index < input.frags.len(),
        plain_sum(input.frags, input.frags.len()) < st.p2d.len(),
        plain_sum(input.frags, input.frags.len()) <= usize::MAX,
        st.step(input).display <= bound,
        bound < usize::MAX,
    ensures
        carets_ok(st.step(input), st.step(input).plain as int),
        st.step(input).p2d.len() == st.p2d.len(),
{
    let i = st.index;
    let f = input.frags[i as int];
    lemma_sums_monotone(input.frags, i + 1, input.frags.len());
    assert(plain_sum(input.frags, i + 1) == st.plain + flen(f));
    lemma_track_step(st, input);
    let start = st.plain;
    let end = start + flen(f);
    if flen(f) == 0 {
    } else if f.footnote is Some {
        assert(false);
    } else if f.link is Some {
        lemma_carets_link_step(st, input, bound);
    } else if st.splits_head(input) {
        lemma_carets_head_step(st, input, bound);
    } else {
        let range = Range { start: start as usize, end: end as usize };
        let kinds = expanded_kinds(input.frags, i as int, f.style, range, input.selected, input.marked);
        lemma_carets_emit(st, ProjectedView::Source { fragment_index: i as usize }, i, range, f.style, kinds, None, false, bound);
    }
}

proof fn lemma_carets_run(st: BuildState, input: BuildInput, bound: nat)
    requires
        carets_ok(st, st.plain as int),
        no_footnotes(input.frags),
        st.plain == plain_sum(input.frags, st.index),
        st.index <= input.frags.len(),
        plain_sum(input.frags, input.frags.len()) < st.p2d.len(),
        plain_sum(input.frags, input.frags.len()) <= usize::MAX,
        st.run(input).display <= bound,
        bound < usize::MAX,
    ensures
        carets_ok(st.run(input), plain_sum(input.frags, input.frags.len()) as int),
    decreases input.frags.len() - st.index,
{
    if st.index < input.frags.len() {
        lemma_track_step(st, input);
        lemma_run_grows(st.step(input), input);
        lemma_carets_step(st, input, bound);
        lemma_carets_run(st.step(input), input, bound);
    }
}

/// The delimiter fixups keep every plain caret mapping back to itself.
proof fn lemma_fixup_carets(fin: BuildState, n: nat, total: int)
    requires
        carets_ok(fin, total),
        n <= fin.segments.len(),
        forall|i: int| 0 <= i < fin.segments.len() ==> #[trigger] fin.segments[i].plain_range.start < fin.p2d.len(),
    ensures
        forall|q: int|
            0 <= q <= total ==> (#[trigger] fixup(fin.p2d, fin.segments, n)[q]) < fin.d2p.len() && fin.d2p[fixup(
                fin.p2d,
                fin.segments,
                n,
            )[q] as int] == q,
    decreases n,
{
    if n > 0 {
        lemma_fixup_carets(fin, (n - 1) as nat, total);
        lemma_fixup_len(fin.p2d, fin.segments, (n - 1) as nat);
        let prev = fixup(fin.p2d, fin.segments, (n - 1) as nat);
        let sg = fin.segments[n - 1];
        assert forall|q: int| 0 <= q <= total implies (#[trigger] fixup(fin.p2d, fin.segments, n)[q]) < fin.d2p.len()
            && fin.d2p[fixup(fin.p2d, fin.segments, n)[q] as int] == q by {
            assert(fixup(fin.p2d, fin.segments, n) == fixup_entry(prev, sg));
            assert(prev[q] < fin.d2p.len() && fin.d2p[prev[q] as int] == q);
            if q == sg.plain_range.start {
                if is_delimiter(sg.kind) {
                    assert(fin.d2p[sg.display_range.start as int] == sg.plain_range.start);
                    assert(fin.d2p[sg.display_range.end as int] == sg.plain_range.start);
                }
            }
        }
    }
}

/// Every plain caret of a finished build without footnote references
/// maps to a display caret that maps back to it, after the delimiter
/// fixups too.
pub proof fn lemma_build_caret_round_trip(input: BuildInput, prefix: Option<Seq<char>>)
    requires
        no_footnotes(input.frags),
        plain_sum(input.frags, input.frags.len()) < usize::MAX,
        build_final(input, prefix).display < usize::MAX,
        build_final(input, prefix).wf(),
    ensures
        ({
            let fin = build_final(input, prefix);
            let p2d = fixup(fin.p2d, fin.segments, fin.segments.len());
            forall|q: int|
                0 <= q <= plain_sum(input.frags, input.frags.len()) ==> (#[trigger] p2d[q]) < fin.d2p.len()
                    && fin.d2p[p2d[q] as int] == q
        }),
{
    let st = build_init(input, prefix);
    let total = plain_sum(input.frags, input.frags.len());
    let fin = build_final(input, prefix);
    match prefix {
        Some(p) => if p.len() > 0 {
            lemma_track_repeat(seq![0usize], 0, blen(p));
            assert(st.d2p[blen(p) as int] == 0);
        },
        None => {},
    }
    assert(d2p_tracks(seq![0usize], 0));
    assert(carets_ok(st, 0));
    lemma_carets_run(st, input, fin.display);
    lemma_fixup_carets(fin, fin.segments.len(), total as int);
}

/// The finished build of a projection.
pub open spec fn build_final(input: BuildInput, prefix: Option<Seq<char>>) -> BuildState {
    build_init(input, prefix).run(input)
}

/// Delimiter texts are short ASCII: at most five bytes to open, six to
/// close.
pub proof fn lemma_marker_lens(kind: ExpandedInlineKind)
    ensures
        1 <= blen(open_marker_text(kind)) <= 5,
        1 <= blen(close_marker_text(kind)) <= 6,
{
    reveal_strlit("[");
    reveal_strlit("**");
    reveal_strlit("__");
    reveal_strlit("*");
    reveal_strlit("_");
    reveal_strlit("~~");
    reveal_strlit("`");
    reveal_strlit("^");
    reveal_strlit("<sup>");
    reveal_strlit("~");
    reveal_strlit("<sub>");
    reveal_strlit(")");
    reveal_strlit("</sup>");
    reveal_strlit("</sub>");
    let o = open_marker_text(kind);
    let c = close_marker_text(kind);
    assert(vstd::utf8::is_ascii_chars(o));
    assert(vstd::utf8::is_ascii_chars(c));
    vstd::utf8::is_ascii_chars_encode_utf8(o);
    vstd::utf8::is_ascii_chars_encode_utf8(c);
}

/// The footnote delimiters `[^` and `]` take two bytes and one byte.
pub proof fn lemma_footnote_marker_lens()
    ensures
        blen("[^"@) == 2,
        blen("]"@) == 1,
{
    reveal_strlit("[^");
    reveal_strlit("]");
    assert(vstd::utf8::is_ascii_chars("[^"@));
    assert(vstd::utf8::is_ascii_chars("]"@));
    vstd::utf8::is_ascii_chars_encode_utf8("[^"@);
    vstd::utf8::is_ascii_chars_encode_utf8("]"@);
}

/// Every link of the fragments shows opening and closing syntax.
pub open spec fn link_markers_shown(frags: Seq<InlineFragment>) -> bool {
    forall|i: int|
        0 <= i < frags.len() && (#[trigger] frags[i]).link is Some ==> {
            &&& frags[i].link->0.open_marker@.len() > 0
            &&& frags[i].link->0.close_marker@.len() > 0
        }
}

/// Text with a character takes at least one byte.
proof fn lemma_blen_positive(t: Seq<char>)
    requires
        t.len() > 0,
    ensures
        blen(t) > 0,
{
    assert(vstd::utf8::encode_utf8(t) == vstd::utf8::encode_scalar(t[0] as u32)
        + vstd::utf8::encode_utf8(t.drop_first()));
}

/// Syntax pushed within the display bound keeps delimiters non-empty when
/// a delimiter's text takes a byte.
proof fn lemma_delims_syntax(
    st: BuildState,
    text: Seq<char>,
    kind: ExpandedInlineSegmentKind,
    at: usize,
    fi: nat,
    group: Option<usize>,
)
    requires
        delimiters_nonempty(st.segments),
        is_delimiter(kind) ==> blen(text) > 0,
        st.display + blen(text) <= usize::MAX,
    ensures
        forall|piece: ProjectedView|
            delimiters_nonempty(#[trigger] st.push_syntax(piece, text, kind, at, fi, group).segments),
{
    assert forall|piece: ProjectedView|
        delimiters_nonempty(#[trigger] st.push_syntax(piece, text, kind, at, fi, group).segments) by {
        let r = st.push_syntax(piece, text, kind, at, fi, group);
        assert forall|i: int|
            0 <= i < r.segments.len() && is_delimiter((#[trigger] r.segments[i]).kind) implies r.segments[i].display_range.start
            < r.segments[i].display_range.end by {
            if i < st.segments.len() {
                assert(r.segments[i] == st.segments[i]);
            }
        }
    }
}

/// Text that is no delimiter keeps delimiters non-empty.
proof fn lemma_delims_text(
    st: BuildState,
    piece: ProjectedView,
    range: Range<usize>,
    fi: nat,
    group: Option<usize>,
    kind: ExpandedInlineSegmentKind,
)
    requires
        delimiters_nonempty(st.segments),
        !is_delimiter(kind),
    ensures
        delimiters_nonempty(st.push_text(piece, range, fi, group, kind).segments),
{
    let r = st.push_text(piece, range, fi, group, kind);
    assert forall|i: int|
        0 <= i < r.segments.len() && is_delimiter((#[trigger] r.segments[i]).kind) implies r.segments[i].display_range.start
        < r.segments[i].display_range.end by {
        if i < st.segments.len() {
            assert(r.segments[i] == st.segments[i]);
        }
    }
}

proof fn lemma_delims_open_all(
    st: BuildState,
    kinds: Seq<ExpandedInlineKind>,
    style: InlineStyle,
    fi: nat,
    at: usize,
    group: Option<usize>,
    k: nat,
)
    requires
        delimiters_nonempty(st.segments),
        st.open_all(kinds, style, fi, at, group, k).display <= usize::MAX,
    ensures
        delimiters_nonempty(st.open_all(kinds, style, fi, at, group, k).segments),
    decreases k,
{
    if k > 0 {
        let kind = kinds[k - 1];
        let inner = st.open_all(kinds, style, fi, at, group, (k - 1) as nat);
        lemma_delims_open_all(st, kinds, style, fi, at, group, (k - 1) as nat);
        lemma_marker_lens(kind);
        lemma_delims_syntax(
            inner,
            open_marker_text(kind),
            ExpandedInlineSegmentKind::OpeningDelimiter(kind),
            at,
            fi,
            group,
        );
    }
}

proof fn lemma_delims_close_all(
    st: BuildState,
    kinds: Seq<ExpandedInlineKind>,
    style: InlineStyle,
    fi: nat,
    at: usize,
    group: Option<usize>,
    k: nat,
)
    requires
        delimiters_nonempty(st.segments),
        st.close_all(kinds, style, fi, at, group, k).display <= usize::MAX,
    ensures
        delimiters_nonempty(st.close_all(kinds, style, fi, at, group, k).segments),
    decreases k,
{
    if k > 0 {
        let kind = kinds[kinds.len() - k];
        let inner = st.close_all(kinds, style, fi, at, group, (k - 1) as nat);
        lemma_delims_close_all(st, kinds, style, fi, at, group, (k - 1) as nat);
        lemma_marker_lens(kind);
        lemma_delims_syntax(
            inner,
            close_marker_text(kind),
            ExpandedInlineSegmentKind::ClosingDelimiter(kind),
            at,
            fi,
            group,
        );
    }
}

proof fn lemma_delims_emit(
    st: BuildState,
    piece: ProjectedView,
    fi: nat,
    range: Range<usize>,
    style: InlineStyle,
    kinds: Seq<ExpandedInlineKind>,
    group: Option<usize>,
    force_styled: bool,
)
    requires
        delimiters_nonempty(st.segments),
        st.emit_fragment(piece, fi, range, style, kinds, group, force_styled).display <= usize::MAX,
    ensures
        delimiters_nonempty(st.emit_fragment(piece, fi, range, style, kinds, group, force_styled).segments),
{
    let opened = st.open_all(kinds, style, fi, range.start, group, kinds.len());
    let kind = if kinds.len() == 0 && !force_styled {
        ExpandedInlineSegmentKind::PlainText
    } else {
        ExpandedInlineSegmentKind::StyledText
    };
    let texted = opened.push_text(piece, range, fi, group, kind);
    lemma_close_all_grows(texted, kinds, style, fi, range.end, group, kinds.len());
    lemma_delims_open_all(st, kinds, style, fi, range.start, group, kinds.len());
    lemma_delims_text(opened, piece, range, fi, group, kind);
    lemma_delims_close_all(texted, kinds, style, fi, range.end, group, kinds.len());
}

proof fn lemma_delims_labels(
    st: BuildState,
    input: BuildInput,
    j: nat,
    end: nat,
    local: nat,
    expand: bool,
    group: Option<usize>,
)
    requires
        delimiters_nonempty(st.segments),
        st.emit_labels(input, j, end, local, expand, group).display <= usize::MAX,
    ensures
        delimiters_nonempty(st.emit_labels(input, j, end, local, expand, group).segments),
    decreases end - j,
{
    if !(j >= end || j >= input.frags.len()) {
        let f = input.frags[j as int];
        let range = Range { start: local as usize, end: (local + flen(f)) as usize };
        let kinds = if expand {
            expanded_kinds(input.frags, j as int, f.style, range, input.selected, input.marked)
        } else {
            seq![]
        };
        let piece = ProjectedView::Source { fragment_index: j as usize };
        let s1 = st.emit_fragment(piece, j, range, f.style, kinds, group, expand);
        lemma_labels_grows(s1, input, j + 1, end, local + flen(f), expand, group);
        lemma_delims_emit(st, piece, j, range, f.style, kinds, group, expand);
        lemma_delims_labels(s1, input, j + 1, end, local + flen(f), expand, group);
    }
}

proof fn lemma_delims_footnote(st: BuildState, input: BuildInput)
    requires
        delimiters_nonempty(st.segments),
        st.index < input.frags.len(),
        st.footnote_step(input).display <= usize::MAX,
    ensures
        delimiters_nonempty(st.footnote_step(input).segments),
{
    lemma_footnote_marker_lens();
    let r = st.footnote_step(input);
    assert(r.segments.len() == st.segments.len() + 3);
    assert forall|k: int|
        0 <= k < r.segments.len() && is_delimiter((#[trigger] r.segments[k]).kind) implies r.segments[k].display_range.start
        < r.segments[k].display_range.end by {
        if k < st.segments.len() {
            assert(r.segments[k] == st.segments[k]);
        }
    }
}

proof fn lemma_delims_link_tail(
    st: BuildState,
    link: InlineLink,
    i: nat,
    end_idx: nat,
    range: Range<usize>,
    d0: nat,
    group: Option<usize>,
)
    requires
        delimiters_nonempty(st.segments),
        link.close_marker@.len() > 0,
        st.link_tail(link, i, end_idx, range, d0, group).display <= usize::MAX,
    ensures
        delimiters_nonempty(st.link_tail(link, i, end_idx, range, d0, group).segments),
        st.link_tail(link, i, end_idx, range, d0, group).display >= st.display,
{
    lemma_blen_positive(link.close_marker@);
    let plain_end = range.end;
    let s3 = match link.middle_marker {
        Some(m) => st.push_syntax(
            plain_syntax(m@),
            m@,
            ExpandedInlineSegmentKind::MiddleDelimiter(ExpandedInlineKind::Link),
            plain_end,
            i,
            group,
        ),
        None => st,
    };
    let s4 = match link.editable_text {
        Some(t) => if blen(t@) > 0 {
            s3.push_syntax(
                ProjectedView::Syntax {
                    text: t@,
                    style: InlineStyle::plain_spec(),
                    style_of: None,
                    html_style_of: None,
                    link_of: Some(i as usize),
                    footnote_of: None,
                },
                t@,
                ExpandedInlineSegmentKind::LinkTargetText,
                plain_end,
                i,
                group,
            )
        } else {
            s3
        },
        None => s3,
    };
    let r = st.link_tail(link, i, end_idx, range, d0, group);
    assert(r.segments == s4.push_syntax(
        plain_syntax(link.close_marker@),
        link.close_marker@,
        ExpandedInlineSegmentKind::ClosingDelimiter(ExpandedInlineKind::Link),
        plain_end,
        i,
        group,
    ).segments);
    assert(s3.display >= st.display);
    assert(s4.display >= s3.display);
    match link.middle_marker {
        Some(m) => lemma_delims_syntax(
            st,
            m@,
            ExpandedInlineSegmentKind::MiddleDelimiter(ExpandedInlineKind::Link),
            plain_end,
            i,
            group,
        ),
        None => {},
    }
    match link.editable_text {
        Some(t) => if blen(t@) > 0 {
            lemma_delims_syntax(s3, t@, ExpandedInlineSegmentKind::LinkTargetText, plain_end, i, group);
        },
        None => {},
    }
    lemma_delims_syntax(
        s4,
        link.close_marker@,
        ExpandedInlineSegmentKind::ClosingDelimiter(ExpandedInlineKind::Link),
        plain_end,
        i,
        group,
    );
}

proof fn lemma_delims_link_step(st: BuildState, input: BuildInput)
    requires
        delimiters_nonempty(st.segments),
        link_markers_shown(input.frags),
        st.index < input.frags.len(),
        input.frags[st.index as int].link is Some,
        st.link_step(input).display <= usize::MAX,
    ensures
        delimiters_nonempty(st.link_step(input).segments),
{
    let i = st.index;
    let f = input.frags[i as int];
    let link = f.link->0;
    assert(link.open_marker@.len() > 0 && link.close_marker@.len() > 0);
    let end_idx = span_end_from(input.frags, i + 1, link.key);
    let start = st.plain;
    let plain_end = plain_sum(input.frags, end_idx);
    let range = Range { start: start as usize, end: plain_end as usize };
    let expand = touched(range, input.selected, input.marked);
    let group = if expand {
        Some(st.links.len() as usize)
    } else {
        None
    };
    let d0 = st.display;
    let s0 = BuildState { any: true, ..st };
    let s1 = if expand {
        s0.push_syntax(
            plain_syntax(link.open_marker@),
            link.open_marker@,
            ExpandedInlineSegmentKind::OpeningDelimiter(ExpandedInlineKind::Link),
            start as usize,
            i,
            group,
        )
    } else {
        st
    };
    let s2 = s1.emit_labels(input, i, end_idx, start, expand, group);
    lemma_labels_grows(s1, input, i, end_idx, start, expand, group);
    if expand {
        assert(s2.link_tail(link, i, end_idx, range, d0, group).display >= s2.display);
        lemma_blen_positive(link.open_marker@);
        lemma_delims_syntax(
            s0,
            link.open_marker@,
            ExpandedInlineSegmentKind::OpeningDelimiter(ExpandedInlineKind::Link),
            start as usize,
            i,
            group,
        );
    }
    lemma_delims_labels(s1, input, i, end_idx, start, expand, group);
    if expand {
        lemma_delims_link_tail(s2, link, i, end_idx, range, d0, group);
    }
}

proof fn lemma_delims_step(st: BuildState, input: BuildInput)
    requires
        delimiters_nonempty(st.segments),
        link_markers_shown(input.frags),
        st.index < input.frags.len(),
        st.step(input).display <= usize::MAX,
    ensures
        delimiters_nonempty(st.step(input).segments),
{
    let i = st.index;
    let f = input.frags[i as int];
    if flen(f) == 0 {
    } else if f.footnote is Some {
        lemma_delims_footnote(st, input);
    } else if f.link is Some {
        lemma_delims_link_step(st, input);
    } else if st.splits_head(input) {
        let h = input.head->0;
        let start = st.plain;
        let end = start + flen(f);
        let split = (h - start) as usize;
        let p1 = ProjectedView::SourcePart { fragment_index: i as usize, start: 0, end: split };
        let p2 = ProjectedView::SourcePart { fragment_index: i as usize, start: split, end: flen(f) as usize };
        let r1 = Range { start: start as usize, end: h };
        let r2 = Range { start: h, end: end as usize };
        let s1 = st.emit_fragment(p1, i, r1, f.style, seq![], None, false);
        let s2 = s1.push_syntax(plain_syntax("]"@), "]"@, ExpandedInlineSegmentKind::BlockPrefix, h, i, None);
        let s2c = BuildState { head_closed: true, any: true, ..s2 };
        lemma_emit_grows(s2c, p2, i, r2, f.style, seq![], None, false);
        lemma_delims_emit(st, p1, i, r1, f.style, seq![], None, false);
        lemma_delims_syntax(s1, "]"@, ExpandedInlineSegmentKind::BlockPrefix, h, i, None);
        lemma_delims_emit(s2c, p2, i, r2, f.style, seq![], None, false);
    } else {
        let start = st.plain;
        let end = start + flen(f);
        let range = Range { start: start as usize, end: end as usize };
        let kinds = expanded_kinds(input.frags, i as int, f.style, range, input.selected, input.marked);
        lemma_delims_emit(st, ProjectedView::Source { fragment_index: i as usize }, i, range, f.style, kinds, None, false);
    }
}

proof fn lemma_delims_run(st: BuildState, input: BuildInput)
    requires
        delimiters_nonempty(st.segments),
        link_markers_shown(input.frags),
        st.run(input).display <= usize::MAX,
    ensures
        delimiters_nonempty(st.run(input).segments),
    decreases input.frags.len() - st.index,
{
    if st.index < input.frags.len() {
        let f = input.frags[st.index as int];
        if f.link is Some {
            lemma_span_end_bounds(input.frags, st.index + 1, f.link->0.key);
        }
        lemma_run_grows(st.step(input), input);
        lemma_delims_step(st, input);
        lemma_delims_run(st.step(input), input);
    }
}

/// In a finished build whose links all show opening and closing syntax,
/// every opening and closing delimiter shows at least one byte.
pub proof fn lemma_built_delimiters_nonempty(input: BuildInput, prefix: Option<Seq<char>>)
    requires
        link_markers_shown(input.frags),
        build_final(input, prefix).display <= usize::MAX,
    ensures
        delimiters_nonempty(build_final(input, prefix).segments),
{
    let st = build_init(input, prefix);
    assert(delimiters_nonempty(st.segments));
    lemma_delims_run(st, input);
}

/// A projection under construction.
struct ProjectionBuilder {
    projected: Vec<ProjectedFragment>,
    segments: Vec<ExpandedInlineSegment>,
    p2d: Vec<usize>,
    d2p: Vec<usize>,
    link_spans: Vec<ExpandedLinkSpan>,
    footnote_spans: Vec<ExpandedFootnoteSpan>,
    plain: usize,
    display: usize,
    any: bool,
    prefix_range: Option<Range<usize>>,
    head_closed: bool,
    index: usize,
}

impl ProjectionBuilder {
    spec fn state(&self) -> BuildState {
        BuildState {
            pieces: self.projected@.map_values(|p: ProjectedFragment| p@),
            segments: self.segments@,
            p2d: self.p2d@,
            d2p: self.d2p@,
            links: self.link_spans@,
            footnotes: self.footnote_spans@,
            plain: self.plain as nat,
            display: self.display as nat,
            any: self.any,
            prefix_range: self.prefix_range,
            head_closed: self.head_closed,
            index: self.index as nat,
        }
    }

    /// The bookkeeping that only the step functions move is unchanged.
    spec fn same_frame(&self, other: &ProjectionBuilder) -> bool {
        &&& self.index == other.index
        &&& self.plain == other.plain
        &&& self.link_spans@ == other.link_spans@
        &&& self.footnote_spans@ == other.footnote_spans@
        &&& self.prefix_range == other.prefix_range
        &&& self.head_closed == other.head_closed
    }

    /// Appends `n` copies of `v` to the display map.
    fn push_d2p_repeat(&mut self, v: usize, n: usize)
        ensures
            final(self).state() == (BuildState { d2p: old(self).state().d2p + repeat(v, n as nat), ..old(self).state() }),
    {
        let ghost start = self.d2p@;
        let mut k: usize = 0;
        while k < n
            invariant
                0 <= k <= n,
                self.d2p@ == start + repeat(v, k as nat),
                self.projected@ == old(self).projected@,
                self.segments@ == old(self).segments@,
                self.p2d@ == old(self).p2d@,
                self.link_spans@ == old(self).link_spans@,
                self.footnote_spans@ == old(self).footnote_spans@,
                self.plain == old(self).plain,
                self.display == old(self).display,
                self.any == old(self).any,
                self.prefix_range == old(self).prefix_range,
                self.head_closed == old(self).head_closed,
                self.index == old(self).index,
            decreases n - k,
        {
            self.d2p.push(v);
            k = k + 1;
            assert(self.d2p@ =~= start + repeat(v, k as nat));
        }
    }

    /// Appends syntax text as a segment at plain offset `at`.
    fn push_syntax(
        &mut self,
        text: String,
        style: InlineStyle,
        style_of: Option<usize>,
        html_style_of: Option<usize>,
        link_of: Option<usize>,
        footnote_of: Option<usize>,
        kind: ExpandedInlineSegmentKind,
        at: usize,
        fi: usize,
        group: Option<usize>,
    )
        requires
            old(self).display + blen(text@) < usize::MAX,
            at < old(self).p2d@.len(),
            old(self).state().wf(),
        ensures
            final(self).state().wf(),
            final(self).same_frame(old(self)),
            final(self).state() == old(self).state().push_syntax(
                (ProjectedView::Syntax { text: text@, style, style_of, html_style_of, link_of, footnote_of }),
                text@,
                kind,
                at,
                fi as nat,
                group,
            ),
    {
        let len = text.as_str().len();
        let ghost piece = ProjectedView::Syntax { text: text@, style, style_of, html_style_of, link_of, footnote_of };
        let ghost before = self.state();
        let start = self.display;
        self.projected.push(ProjectedFragment::Syntax { text, style, style_of, html_style_of, link_of, footnote_of });
        self.segments.push(ExpandedInlineSegment {
            display_range: Range { start, end: start + len },
            plain_range: Range { start: at, end: at },
            fragment_index: fi,
            link_group: group,
            kind,
        });
        self.push_d2p_repeat(at, len);
        self.display = start + len;
        assert(self.state().pieces =~= before.pieces.push(piece));
        assert(self.state().pieces[self.state().pieces.len() - 1] == piece);
    }
}

impl ProjectionBuilder {
    /// Appends `piece` showing plain bytes `range` one to one.
    fn push_text(
        &mut self,
        piece: ProjectedFragment,
        range: Range<usize>,
        fi: usize,
        group: Option<usize>,
        kind: ExpandedInlineSegmentKind,
    )
        requires
            range.start <= range.end,
            range.end < old(self).p2d@.len(),
            old(self).display + (range.end - range.start) < usize::MAX,
            old(self).state().wf(),
            !(piece@ is Syntax),
        ensures
            final(self).state().wf(),
            final(self).same_frame(old(self)),
            final(self).state() == old(self).state().push_text(piece@, range, fi as nat, group, kind),
    {
        let len = range.end - range.start;
        let base = self.display;
        let ghost before = self.state();
        let ghost piece_view = piece@;
        self.projected.push(piece);
        self.segments.push(ExpandedInlineSegment {
            display_range: Range { start: base, end: base + len },
            plain_range: Range { start: range.start, end: range.end },
            fragment_index: fi,
            link_group: group,
            kind,
        });
        let ghost p0 = self.p2d@;
        let ghost before_projected = self.projected@;
        let ghost before_segments = self.segments@;
        let mut off: usize = 0;
        while off <= len
            invariant
                0 <= off <= len + 1,
                len == range.end - range.start,
                range.end < p0.len(),
                base + len < usize::MAX,
                self.p2d@.len() == p0.len(),
                self.projected@ == before_projected,
                self.segments@ == before_segments,
                self.d2p@ == before.d2p,
                self.link_spans@ == before.links,
                self.footnote_spans@ == before.footnotes,
                self.plain == before.plain,
                self.display == base,
                self.any == before.any,
                self.prefix_range == before.prefix_range,
                self.head_closed == before.head_closed,
                self.index == before.index,
                forall|j: int|
                    0 <= j < p0.len() ==> #[trigger] self.p2d@[j] == if range.start <= j < range.start + off {
                        (base + (j - range.start)) as usize
                    } else {
                        p0[j]
                    },
            decreases len + 1 - off,
        {
            self.p2d.set(range.start + off, base + off);
            off = off + 1;
        }
        assert(self.p2d@ =~= fill_ramp(p0, range.start as nat, len as nat, base as nat));
        let ghost q0 = self.d2p@;
        let mut k: usize = 1;
        while k <= len
            invariant
                1 <= k <= len + 1,
                len == range.end - range.start,
                base + len < usize::MAX,
                self.d2p@ == q0 + ramp(range.start, (k - 1) as nat),
                self.p2d@ == fill_ramp(p0, range.start as nat, len as nat, base as nat),
                self.projected@ == before_projected,
                self.segments@ == before_segments,
                self.link_spans@ == before.links,
                self.footnote_spans@ == before.footnotes,
                self.plain == before.plain,
                self.display == base,
                self.any == before.any,
                self.prefix_range == before.prefix_range,
                self.head_closed == before.head_closed,
                self.index == before.index,
            decreases len + 1 - k,
        {
            self.d2p.push(range.start + k);
            assert(self.d2p@ =~= q0 + ramp(range.start, k as nat));
            k = k + 1;
        }
        self.display = base + len;
        assert(self.state().pieces =~= before.pieces.push(piece_view));
        assert(self.state().pieces[self.state().pieces.len() - 1] == piece_view);
    }

    /// Appends the opening delimiters of `kinds`, outermost first.
    fn open_all(
        &mut self,
        kinds: &Vec<ExpandedInlineKind>,
        style: InlineStyle,
        fi: usize,
        at: usize,
        group: Option<usize>,
    )
        requires
            kinds@.len() <= 5,
            old(self).display + 5 * kinds@.len() < usize::MAX,
            at < old(self).p2d@.len(),
            old(self).state().wf(),
        ensures
            final(self).state().wf(),
            final(self).same_frame(old(self)),
            final(self).p2d@ == old(self).p2d@,
            final(self).state() == old(self).state().open_all(kinds@, style, fi as nat, at, group, kinds@.len()),
            final(self).display <= old(self).display + 5 * kinds@.len(),
    {
        let n = kinds.len();
        let mut k: usize = 0;
        while k < n
            invariant
                n == kinds@.len(),
                n <= 5,
                0 <= k <= n,
                old(self).display + 5 * n < usize::MAX,
                at < old(self).p2d@.len(),
                self.state().wf(),
                self.same_frame(old(self)),
                self.p2d@ == old(self).p2d@,
                self.state() == old(self).state().open_all(kinds@, style, fi as nat, at, group, k as nat),
                self.display <= old(self).display + 5 * k,
            decreases n - k,
        {
            let kind = kinds[k];
            proof {
                lemma_marker_lens(kind);
            }
            let marker = kind.open_marker();
            let text = String::from_str(marker);
            let marker_style = marker_style_for_projection(style, kind);
            self.push_syntax(
                text,
                marker_style,
                Some(fi),
                Some(fi),
                None,
                None,
                ExpandedInlineSegmentKind::OpeningDelimiter(kind),
                at,
                fi,
                group,
            );
            k = k + 1;
        }
    }

    /// Appends the closing delimiters of `kinds`, innermost first.
    fn close_all(
        &mut self,
        kinds: &Vec<ExpandedInlineKind>,
        style: InlineStyle,
        fi: usize,
        at: usize,
        group: Option<usize>,
    )
        requires
            kinds@.len() <= 5,
            old(self).display + 6 * kinds@.len() < usize::MAX,
            at < old(self).p2d@.len(),
            old(self).state().wf(),
        ensures
            final(self).state().wf(),
            final(self).same_frame(old(self)),
            final(self).p2d@ == old(self).p2d@,
            final(self).state() == old(self).state().close_all(kinds@, style, fi as nat, at, group, kinds@.len()),
            final(self).display <= old(self).display + 6 * kinds@.len(),
    {
        let n = kinds.len();
        let mut k: usize = 0;
        while k < n
            invariant
                n == kinds@.len(),
                n <= 5,
                0 <= k <= n,
                old(self).display + 6 * n < usize::MAX,
                at < old(self).p2d@.len(),
                self.state().wf(),
                self.same_frame(old(self)),
                self.p2d@ == old(self).p2d@,
                self.state() == old(self).state().close_all(kinds@, style, fi as nat, at, group, k as nat),
                self.display <= old(self).display + 6 * k,
            decreases n - k,
        {
            let kind = kinds[n - 1 - k];
            proof {
                lemma_marker_lens(kind);
            }
            let marker = kind.close_marker();
            let text = String::from_str(marker);
            let marker_style = marker_style_for_projection(style, kind);
            self.push_syntax(
                text,
                marker_style,
                Some(fi),
                Some(fi),
                None,
                None,
                ExpandedInlineSegmentKind::ClosingDelimiter(kind),
                at,
                fi,
                group,
            );
            k = k + 1;
        }
    }

    /// Appends a fragment shown as `piece` over plain bytes `range`,
    /// wrapped in the delimiters of `kinds` (outermost first).
    fn push_projected_fragment(
        &mut self,
        piece: ProjectedFragment,
        fi: usize,
        range: Range<usize>,
        style: InlineStyle,
        kinds: &Vec<ExpandedInlineKind>,
        group: Option<usize>,
        force_styled: bool,
    )
        requires
            kinds@.len() <= 5,
            range.start <= range.end,
            range.end < old(self).p2d@.len(),
            old(self).display + (range.end - range.start) + 11 * kinds@.len() + 1 < usize::MAX,
            old(self).state().wf(),
            !(piece@ is Syntax),
        ensures
            final(self).state().wf(),
            final(self).same_frame(old(self)),
            final(self).p2d@.len() == old(self).p2d@.len(),
            final(self).display <= old(self).display + (range.end - range.start) + 11 * kinds@.len(),
            final(self).state() == old(self).state().emit_fragment(
                piece@,
                fi as nat,
                range,
                style,
                kinds@,
                group,
                force_styled,
            ),
    {
        let start = range.start;
        let end = range.end;
        self.open_all(kinds, style, fi, start, group);
        let kind = if kinds.len() == 0 && !force_styled {
            ExpandedInlineSegmentKind::PlainText
        } else {
            ExpandedInlineSegmentKind::StyledText
        };
        self.push_text(piece, Range { start, end }, fi, group, kind);
        self.close_all(kinds, style, fi, end, group);
        if kinds.len() > 0 {
            self.any = true;
        }
    }
}

/// Scaling an offset within `0..=len` to `0..=a` stays within `0..=a`.
pub proof fn lemma_scaled_le(a: int, off: int, len: int)
    requires
        0 <= a,
        0 <= off <= len,
        0 < len,
    ensures
        0 <= a * off <= a * len,
        0 <= (a * off) / len <= a,
{
    assert(0 <= a * off <= a * len) by (nonlinear_arith)
        requires
            0 <= a,
            0 <= off <= len,
    ;
    vstd::arithmetic::div_mod::lemma_div_is_ordered(a * off, a * len, len);
    vstd::arithmetic::div_mod::lemma_div_is_ordered(0, a * off, len);
    assert(a * len == len * a) by (nonlinear_arith);
    vstd::arithmetic::div_mod::lemma_div_multiples_vanish(a, len);
}

/// The product of two machine words fits in 128 bits.
pub proof fn lemma_word_product(a: usize, b: usize)
    ensures
        (a as int) * (b as int) <= u128::MAX,
{
    assert((a as int) * (b as int) <= 0xffff_ffff_ffff_ffffint * 0xffff_ffff_ffff_ffffint) by (nonlinear_arith)
        requires
            0 <= a <= 0xffff_ffff_ffff_ffffint,
            0 <= b <= 0xffff_ffff_ffff_ffffint,
    ;
}

impl ProjectionBuilder {
    /// Sets cursor entries `start ..= start + len` to `base` plus the
    /// offset scaled from `len` to `id_len`.
    fn fill_p2d_scaled(&mut self, start: usize, len: usize, base: usize, id_len: usize)
        requires
            0 < len,
            start + len < old(self).p2d@.len(),
            base + id_len < usize::MAX,
        ensures
            final(self).state() == (BuildState {
                p2d: fill_scaled(old(self).state().p2d, start as nat, len as nat, base as nat, id_len as nat),
                ..old(self).state()
            }),
    {
        let ghost p0 = self.p2d@;
        let n = self.p2d.len();
        let mut off: usize = 0;
        while off <= len
            invariant
                n == p0.len(),
                0 < len,
                0 <= off <= len + 1,
                start + len < p0.len(),
                base + id_len < usize::MAX,
                self.p2d@.len() == p0.len(),
                self.projected@ == old(self).projected@,
                self.segments@ == old(self).segments@,
                self.d2p@ == old(self).d2p@,
                self.link_spans@ == old(self).link_spans@,
                self.footnote_spans@ == old(self).footnote_spans@,
                self.plain == old(self).plain,
                self.display == old(self).display,
                self.any == old(self).any,
                self.prefix_range == old(self).prefix_range,
                self.head_closed == old(self).head_closed,
                self.index == old(self).index,
                forall|j: int|
                    0 <= j < p0.len() ==> #[trigger] self.p2d@[j] == if start <= j < start + off {
                        (base + (id_len * (j - start)) / (len as int)) as usize
                    } else {
                        p0[j]
                    },
            decreases len + 1 - off,
        {
            proof {
                lemma_scaled_le(id_len as int, off as int, len as int);
                lemma_word_product(id_len, off);
            }
            let product: u128 = (id_len as u128) * (off as u128);
            let scaled: u128 = product / (len as u128);
            let value: usize = base + scaled as usize;
            self.p2d.set(start + off, value);
            off = off + 1;
        }
        assert(self.p2d@ =~= fill_scaled(p0, start as nat, len as nat, base as nat, id_len as nat));
    }

    /// Appends `start + (len * k) / id_len` for `k` in `1 ..= id_len` to the
    /// display map.
    fn push_d2p_scaled(&mut self, start: usize, len: usize, id_len: usize)
        requires
            start + len < usize::MAX,
            id_len < usize::MAX,
        ensures
            final(self).state() == (BuildState {
                d2p: old(self).state().d2p + scaled_back(start as nat, len as nat, id_len as nat),
                ..old(self).state()
            }),
    {
        let ghost q0 = self.d2p@;
        let mut k: usize = 1;
        while k <= id_len
            invariant
                1 <= k <= id_len + 1,
                id_len < usize::MAX,
                start + len < usize::MAX,
                self.d2p@ == q0 + Seq::new((k - 1) as nat, |m: int| (start + (len * (m + 1)) / (id_len as int)) as usize),
                self.projected@ == old(self).projected@,
                self.segments@ == old(self).segments@,
                self.p2d@ == old(self).p2d@,
                self.link_spans@ == old(self).link_spans@,
                self.footnote_spans@ == old(self).footnote_spans@,
                self.plain == old(self).plain,
                self.display == old(self).display,
                self.any == old(self).any,
                self.prefix_range == old(self).prefix_range,
                self.head_closed == old(self).head_closed,
                self.index == old(self).index,
            decreases id_len + 1 - k,
        {
            proof {
                lemma_scaled_le(len as int, k as int, id_len as int);
                lemma_word_product(len, k);
            }
            let product: u128 = (len as u128) * (k as u128);
            let scaled: u128 = product / (id_len as u128);
            let value: usize = start + scaled as usize;
            let ghost prev = self.d2p@;
            self.d2p.push(value);
            assert(self.d2p@ =~= q0 + Seq::new(k as nat, |m: int| (start + (len * (m + 1)) / (id_len as int)) as usize));
            k = k + 1;
        }
        assert(self.d2p@ =~= q0 + scaled_back(start as nat, len as nat, id_len as nat));
    }
}

/// The IME range as a value.
pub open spec fn marked_view(m: Option<&Range<usize>>) -> Option<Range<usize>> {
    match m {
        Some(r) => Some(*r),
        None => None,
    }
}

/// One more fragment adds its length to the plain offset and its budget
/// to the display budget.
pub proof fn lemma_sums_step(frags: Seq<InlineFragment>, i: nat)
    requires
        i < frags.len(),
    ensures
        plain_sum(frags, i + 1) == plain_sum(frags, i) + flen(frags[i as int]),
        budget_sum(frags, i + 1) == budget_sum(frags, i) + fbudget(frags[i as int]),
        plain_sum(frags, i + 1) <= plain_sum(frags, frags.len()),
        budget_sum(frags, i + 1) <= budget_sum(frags, frags.len()),
{
    lemma_sums_monotone(frags, i + 1, frags.len());
    lemma_sums_monotone(frags, i, i + 1);
}

impl ProjectionBuilder {
    /// The bookkeeping agrees with the fragments read so far, and the
    /// display map has room for the rest.
    spec fn ready(&self, input: BuildInput) -> bool {
        &&& self.index <= input.frags.len()
        &&& self.plain == plain_sum(input.frags, self.index as nat)
        &&& self.p2d@.len() == plain_sum(input.frags, input.frags.len()) + 1
        &&& plain_sum(input.frags, input.frags.len()) + 1 < usize::MAX
        &&& self.display + budget_sum(input.frags, input.frags.len()) - budget_sum(
            input.frags,
            self.index as nat,
        ) + 1 < usize::MAX
        &&& budget_sum(input.frags, self.index as nat) <= budget_sum(input.frags, input.frags.len())
        &&& self.state().wf()
    }

    /// An ordinary fragment with the delimiters of its shown styles.
    #[verifier::spinoff_prover]
    fn plain_step(
        &mut self,
        fragments: &[InlineFragment],
        plain_selected: &Range<usize>,
        plain_marked: Option<&Range<usize>>,
        Ghost(input): Ghost<BuildInput>,
    )
        requires
            input.frags == fragments@,
            input.selected == *plain_selected,
            input.marked == marked_view(plain_marked),
            old(self).ready(input),
            old(self).index < fragments@.len(),
        ensures
            final(self).ready(input),
            final(self).index == old(self).index + 1,
            final(self).state() == old(self).state().plain_step(input),
    {
        let i = self.index;
        let fragment = &fragments[i];
        let len = fragment.text.as_str().len();
        let start = self.plain;
        proof {
            lemma_sums_step(input.frags, i as nat);
        }
        let end = start + len;
        let kinds = ExpandedInlineProjection::expanded_kinds_for_fragment(
            fragments,
            i,
            fragment.style,
            Range { start, end },
            plain_selected,
            plain_marked,
        );
        proof {
            lemma_shown_kinds_len(
                candidate_kinds(input.frags, i as int, fragment.style),
                fragment.style,
                touched(Range { start, end }, input.selected, input.marked),
                5,
            );
        }
        let ghost d = self.display;
        self.push_projected_fragment(
            ProjectedFragment::Source { fragment_index: i },
            i,
            Range { start, end },
            fragment.style,
            &kinds,
            None,
            false,
        );
        let ghost st = self.state();
        self.plain = end;
        self.index = i + 1;
        assert(fbudget(input.frags[i as int]) >= flen(input.frags[i as int]) + 60);
        assert(self.display <= d + len + 55);
        assert(self.state() == BuildState { plain: end as nat, index: (i + 1) as nat, ..st });
    }

    /// The footnote reference at the current fragment: `[^`, the editable
    /// id, `]`.
    #[verifier::spinoff_prover]
    fn footnote_step(&mut self, fragments: &[InlineFragment], Ghost(input): Ghost<BuildInput>)
        requires
            input.frags == fragments@,
            old(self).ready(input),
            old(self).index < fragments@.len(),
            flen(fragments@[old(self).index as int]) > 0,
            fragments@[old(self).index as int].footnote is Some,
        ensures
            final(self).ready(input),
            final(self).index == old(self).index + 1,
            final(self).state() == old(self).state().footnote_step(input),
    {
        let i = self.index;
        let fragment = &fragments[i];
        let len = fragment.text.as_str().len();
        let start = self.plain;
        proof {
            lemma_sums_step(input.frags, i as nat);
            lemma_footnote_marker_lens();
            reveal_strlit("[^");
            reveal_strlit("]");
        }
        let end = start + len;
        let d0 = self.display;
        let ghost s0 = self.state();
        self.any = true;
        match &fragment.footnote {
            Some(footnote) => {
                self.push_syntax(
                    String::from_str("[^"),
                    fragment.style,
                    Some(i),
                    None,
                    None,
                    None,
                    ExpandedInlineSegmentKind::OpeningDelimiter(ExpandedInlineKind::Link),
                    start,
                    i,
                    None,
                );
                let ghost s1 = self.state();
                assert(self.display == d0 + 2);
                let id = footnote.id.clone();
                let id_len = id.as_str().len();
                let ghost id_view = id@;
                self.push_footnote_id(id, fragment.style, i, start, end);
                self.push_syntax(
                    String::from_str("]"),
                    fragment.style,
                    Some(i),
                    None,
                    None,
                    None,
                    ExpandedInlineSegmentKind::ClosingDelimiter(ExpandedInlineKind::Link),
                    end,
                    i,
                    None,
                );
                let d1 = self.display;
                assert(d1 == d0 + 3 + id_len);
                let ghost s3 = self.state();
                self.footnote_spans.push(
                    ExpandedFootnoteSpan {
                        fragment_index: i,
                        plain_range: Range { start, end },
                        display_range: Range { start: d0, end: d1 },
                    },
                );
                assert(self.display <= d0 + len + 60 + blen(id_view));
                assert(self.state() == BuildState { footnotes: self.footnote_spans@, ..s3 });
            },
            None => {},
        }
        let ghost st = self.state();
        self.plain = end;
        self.index = i + 1;
        assert(self.state() == BuildState { plain: end as nat, index: (i + 1) as nat, ..st });
        assert(fbudget(input.frags[i as int]) >= flen(input.frags[i as int]) + 60 + blen(
            input.frags[i as int].footnote->0.id@,
        ));
        assert(self.p2d@.len() == plain_sum(input.frags, input.frags.len()) + 1);
        assert(self.display + budget_sum(input.frags, input.frags.len()) - budget_sum(
            input.frags,
            self.index as nat,
        ) + 1 < usize::MAX);
    }
}

/// The budget of a run of fragments covers their text and sixty bytes
/// each.
pub proof fn lemma_budget_covers(frags: Seq<InlineFragment>, a: nat, b: nat)
    requires
        a <= b <= frags.len(),
    ensures
        budget_sum(frags, b) - budget_sum(frags, a) >= plain_sum(frags, b) - plain_sum(frags, a) + 60 * (b - a),
    decreases b,
{
    if a < b {
        lemma_budget_covers(frags, a, (b - 1) as nat);
    }
}

/// The end of the link run `key` scanned from `from`, with its plain offset.
fn link_run_end(fragments: &[InlineFragment], from: usize, key: usize, from_plain: usize) -> (r: (
    usize,
    usize,
))
    requires
        from <= fragments@.len(),
        from_plain == plain_sum(fragments@, from as nat),
        plain_sum(fragments@, fragments@.len()) + 1 < usize::MAX,
    ensures
        r.0 == span_end_from(fragments@, from as nat, key),
        r.1 == plain_sum(fragments@, r.0 as nat),
        from <= r.0 <= fragments@.len(),
{
    let n = fragments.len();
    let mut j = from;
    let mut p = from_plain;
    while j < n
        invariant
            n == fragments@.len(),
            from <= j <= n,
            span_end_from(fragments@, j as nat, key) == span_end_from(fragments@, from as nat, key),
            p == plain_sum(fragments@, j as nat),
            plain_sum(fragments@, fragments@.len()) + 1 < usize::MAX,
        decreases n - j,
    {
        let same = match &fragments[j].link {
            Some(l) => l.key == key,
            None => false,
        };
        if !same {
            return (j, p);
        }
        proof {
            lemma_sums_step(fragments@, j as nat);
        }
        p = p + fragments[j].text.as_str().len();
        j = j + 1;
    }
    (j, p)
}

impl ProjectionBuilder {
    /// A footnote definition's leading fragment split at the end of its id
    /// `h`, with `]` shown after the id.
    fn head_step(&mut self, fragments: &[InlineFragment], h: usize, Ghost(input): Ghost<BuildInput>)
        requires
            input.frags == fragments@,
            input.head == Some(h),
            old(self).ready(input),
            old(self).index < fragments@.len(),
            old(self).state().splits_head(input),
        ensures
            final(self).ready(input),
            final(self).index == old(self).index + 1,
            final(self).state() == old(self).state().head_step(input, h),
    {
        let i = self.index;
        let fragment = &fragments[i];
        let len = fragment.text.as_str().len();
        let start = self.plain;
        proof {
            lemma_sums_step(input.frags, i as nat);
            lemma_footnote_marker_lens();
            reveal_strlit("]");
        }
        let end = start + len;
        let split = h - start;
        let no_kinds: Vec<ExpandedInlineKind> = Vec::new();
        self.push_projected_fragment(
            ProjectedFragment::SourcePart { fragment_index: i, start: 0, end: split },
            i,
            Range { start, end: h },
            fragment.style,
            &no_kinds,
            None,
            false,
        );
        self.push_syntax(
            String::from_str("]"),
            InlineStyle::plain(),
            None,
            None,
            None,
            None,
            ExpandedInlineSegmentKind::BlockPrefix,
            h,
            i,
            None,
        );
        self.head_closed = true;
        self.any = true;
        self.push_projected_fragment(
            ProjectedFragment::SourcePart { fragment_index: i, start: split, end: len },
            i,
            Range { start: h, end },
            fragment.style,
            &no_kinds,
            None,
            false,
        );
        let ghost st = self.state();
        self.plain = end;
        self.index = i + 1;
        assert(self.state() == BuildState { plain: end as nat, index: (i + 1) as nat, ..st });
    }
}

impl ProjectionBuilder {
    /// The link run starting at the current fragment, shown with its
    /// syntax when the run is touched.
    #[verifier::spinoff_prover]
    fn link_step(
        &mut self,
        fragments: &[InlineFragment],
        plain_selected: &Range<usize>,
        plain_marked: Option<&Range<usize>>,
        Ghost(input): Ghost<BuildInput>,
    )
        requires
            input.frags == fragments@,
            input.selected == *plain_selected,
            input.marked == marked_view(plain_marked),
            old(self).ready(input),
            old(self).index < fragments@.len(),
            fragments@[old(self).index as int].link is Some,
        ensures
            final(self).ready(input),
            final(self).index > old(self).index,
            final(self).state() == old(self).state().link_step(input),
    {
        let i = self.index;
        let n = fragments.len();
        let fragment = &fragments[i];
        let start = self.plain;
        let d0 = self.display;
        let ghost s0 = self.state();
        proof {
            lemma_sums_step(input.frags, i as nat);
        }
        match &fragment.link {
            Some(link) => {
                let key = link.key;
                let first_end = start + fragment.text.as_str().len();
                let (span_end, span_plain_end) = link_run_end(fragments, i + 1, key, first_end);
                proof {
                    lemma_span_end_bounds(input.frags, (i + 1) as nat, key);
                    lemma_budget_covers(input.frags, i as nat, span_end as nat);
                    lemma_budget_covers(input.frags, (i + 1) as nat, span_end as nat);
                    lemma_sums_monotone(input.frags, span_end as nat, n as nat);
                    lemma_sums_monotone(input.frags, i as nat, span_end as nat);
                }
                let expand = ExpandedInlineProjection::fragment_is_touched(
                    Range { start, end: span_plain_end },
                    plain_selected,
                    plain_marked,
                );
                let group = if expand {
                    Some(self.link_spans.len())
                } else {
                    None
                };
                if expand {
                    self.any = true;
                    self.push_syntax(
                        link.open_marker.clone(),
                        InlineStyle::plain(),
                        None,
                        None,
                        None,
                        None,
                        ExpandedInlineSegmentKind::OpeningDelimiter(ExpandedInlineKind::Link),
                        start,
                        i,
                        group,
                    );
                }
                self.emit_link_labels(
                    fragments,
                    plain_selected,
                    plain_marked,
                    Ghost(input),
                    i,
                    span_end,
                    start,
                    span_plain_end,
                    expand,
                    group,
                );
                if expand {
                    self.finish_link(link, i, span_end, start, span_plain_end, d0, group);
                }
                self.plain = span_plain_end;
                self.index = span_end;
            },
            None => {},
        }
    }
}

impl ProjectionBuilder {
    /// The label fragments `i..span_end` of a link run, with their own
    /// delimiters when the link is expanded.
    fn emit_link_labels(
        &mut self,
        fragments: &[InlineFragment],
        plain_selected: &Range<usize>,
        plain_marked: Option<&Range<usize>>,
        Ghost(input): Ghost<BuildInput>,
        i: usize,
        span_end: usize,
        start: usize,
        span_plain_end: usize,
        expand: bool,
        group: Option<usize>,
    )
        requires
            input.frags == fragments@,
            input.selected == *plain_selected,
            input.marked == marked_view(plain_marked),
            i <= span_end <= fragments@.len(),
            start == plain_sum(input.frags, i as nat),
            span_plain_end == plain_sum(input.frags, span_end as nat),
            plain_sum(input.frags, fragments@.len()) + 1 < usize::MAX,
            old(self).p2d@.len() == plain_sum(input.frags, fragments@.len()) + 1,
            old(self).state().wf(),
            old(self).display + (span_plain_end - start) + 55 * (span_end - i) + 1 < usize::MAX,
        ensures
            final(self).state().wf(),
            final(self).same_frame(old(self)),
            final(self).p2d@.len() == old(self).p2d@.len(),
            final(self).display <= old(self).display + (span_plain_end - start) + 55 * (span_end - i),
            final(self).state() == old(self).state().emit_labels(
                input,
                i as nat,
                span_end as nat,
                start as nat,
                expand,
                group,
            ),
    {
        let n = fragments.len();
        let ghost s1 = self.state();
        let d1 = self.display;
        proof {
            lemma_sums_monotone(input.frags, i as nat, span_end as nat);
            lemma_sums_monotone(input.frags, span_end as nat, n as nat);
        }
        let mut j = i;
        let mut local = start;
        while j < span_end
            invariant
                input.frags == fragments@,
                input.selected == *plain_selected,
                input.marked == marked_view(plain_marked),
                n == fragments@.len(),
                i <= j <= span_end <= n,
                local == plain_sum(input.frags, j as nat),
                start == plain_sum(input.frags, i as nat),
                span_plain_end == plain_sum(input.frags, span_end as nat),
                span_plain_end <= plain_sum(input.frags, n as nat),
                plain_sum(input.frags, n as nat) + 1 < usize::MAX,
                self.p2d@.len() == plain_sum(input.frags, n as nat) + 1,
                self.state().wf(),
                self.same_frame(old(self)),
                self.display <= d1 + (local - start) + 55 * (j - i),
                d1 + (span_plain_end - start) + 55 * (span_end - i) + 1 < usize::MAX,
                self.state().emit_labels(input, j as nat, span_end as nat, local as nat, expand, group)
                    == s1.emit_labels(input, i as nat, span_end as nat, start as nat, expand, group),
            decreases span_end - j,
        {
            let current = &fragments[j];
            proof {
                lemma_sums_step(input.frags, j as nat);
                lemma_sums_monotone(input.frags, (j + 1) as nat, span_end as nat);
            }
            let current_len = current.text.as_str().len();
            let current_end = local + current_len;
            let kinds = if expand {
                let k = ExpandedInlineProjection::expanded_kinds_for_fragment(
                    fragments,
                    j,
                    current.style,
                    Range { start: local, end: current_end },
                    plain_selected,
                    plain_marked,
                );
                proof {
                    lemma_shown_kinds_len(
                        candidate_kinds(input.frags, j as int, current.style),
                        current.style,
                        touched(Range { start: local, end: current_end }, input.selected, input.marked),
                        5,
                    );
                }
                k
            } else {
                Vec::new()
            };
            self.push_projected_fragment(
                ProjectedFragment::Source { fragment_index: j },
                j,
                Range { start: local, end: current_end },
                current.style,
                &kinds,
                group,
                expand,
            );
            local = current_end;
            j = j + 1;
        }
    }

    /// The syntax after an expanded link's label, and its link span.
    fn finish_link(
        &mut self,
        link: &InlineLink,
        i: usize,
        span_end: usize,
        start: usize,
        span_plain_end: usize,
        d0: usize,
        group: Option<usize>,
    )
        requires
            span_plain_end < old(self).p2d@.len(),
            old(self).state().wf(),
            old(self).display + match link.middle_marker {
                Some(m) => blen(m@),
                None => 0,
            } + match link.editable_text {
                Some(t) => blen(t@),
                None => 0,
            } + blen(link.close_marker@) + 1 < usize::MAX,
        ensures
            final(self).state().wf(),
            final(self).index == old(self).index,
            final(self).plain == old(self).plain,
            final(self).p2d@ == old(self).p2d@,
            final(self).display <= old(self).display + match link.middle_marker {
                Some(m) => blen(m@),
                None => 0,
            } + match link.editable_text {
                Some(t) => blen(t@),
                None => 0,
            } + blen(link.close_marker@),
            final(self).state() == old(self).state().link_tail(
                *link,
                i as nat,
                span_end as nat,
                Range { start, end: span_plain_end },
                d0 as nat,
                group,
            ),
    {
        match &link.middle_marker {
            Some(m) => {
                self.push_syntax(
                    m.clone(),
                    InlineStyle::plain(),
                    None,
                    None,
                    None,
                    None,
                    ExpandedInlineSegmentKind::MiddleDelimiter(ExpandedInlineKind::Link),
                    span_plain_end,
                    i,
                    group,
                );
            },
            None => {},
        }
        let td = self.display;
        match &link.editable_text {
            Some(t) => {
                if t.as_str().len() > 0 {
                    self.push_syntax(
                        t.clone(),
                        InlineStyle::plain(),
                        None,
                        None,
                        Some(i),
                        None,
                        ExpandedInlineSegmentKind::LinkTargetText,
                        span_plain_end,
                        i,
                        group,
                    );
                }
            },
            None => {},
        }
        let te = self.display;
        self.push_syntax(
            link.close_marker.clone(),
            InlineStyle::plain(),
            None,
            None,
            None,
            None,
            ExpandedInlineSegmentKind::ClosingDelimiter(ExpandedInlineKind::Link),
            span_plain_end,
            i,
            group,
        );
        let d5 = self.display;
        let ghost s5 = self.state();
        self.link_spans.push(
            ExpandedLinkSpan {
                start_fragment_index: i,
                end_fragment_index: span_end,
                plain_range: Range { start, end: span_plain_end },
                display_range: Range { start: d0, end: d5 },
                target_display_range: Range { start: td, end: te },
            },
        );
        assert(self.state() == BuildState { links: self.link_spans@, ..s5 });
    }
}

/// The block prefix as text.
pub open spec fn prefix_view(p: Option<&str>) -> Option<Seq<char>> {
    match p {
        Some(t) => Some(t@),
        None => None,
    }
}

/// Byte length of the block prefix, if any.
pub open spec fn prefix_bytes(p: Option<Seq<char>>) -> nat {
    match p {
        Some(t) => blen(t),
        None => 0,
    }
}

/// The display text of the projection fits in memory: the prefix and the
/// budget of every fragment stay below `usize::MAX`.
pub open spec fn build_fits(frags: Seq<InlineFragment>, prefix: Option<Seq<char>>) -> bool {
    prefix_bytes(prefix) + budget_sum(frags, frags.len()) + 2 < usize::MAX
}

/// `p` is the projection that build `fin` describes.
pub open spec fn projection_of(p: ExpandedInlineProjection, fin: BuildState) -> bool {
    &&& p.pieces() == fin.pieces
    &&& p.segments@ == fin.segments
    &&& p.plain_to_display_cursor@ == fixup(fin.p2d, fin.segments, fin.segments.len())
    &&& p.display_to_plain@ == fin.d2p
    &&& p.link_spans@ == fin.links
    &&& p.footnote_spans@ == fin.footnotes
    &&& p.block_prefix_range == fin.prefix_range
}

/// Whether a delimiter kind moves the caret inside its span.
fn caret_inside(kind: ExpandedInlineKind) -> (b: bool)
    ensures
        b == caret_inside_kind(kind),
{
    match kind {
        ExpandedInlineKind::BoldMarkdown { .. } | ExpandedInlineKind::ItalicMarkdown { .. }
        | ExpandedInlineKind::Code | ExpandedInlineKind::Strikethrough
        | ExpandedInlineKind::SuperscriptMarkdown | ExpandedInlineKind::SubscriptMarkdown => true,
        _ => false,
    }
}

impl ProjectionBuilder {
    /// The state before any fragment, with the block prefix shown.
    fn start(
        plain_len: usize,
        block_prefix: Option<&str>,
        footnote_head_len: Option<usize>,
        Ghost(input): Ghost<BuildInput>,
    ) -> (b: ProjectionBuilder)
        requires
            plain_len == plain_sum(input.frags, input.frags.len()),
            input.head == footnote_head_len,
            build_fits(input.frags, prefix_view(block_prefix)),
        ensures
            b.state() == build_init(input, prefix_view(block_prefix)),
            b.ready(input),
    {
        proof {
            lemma_sums_monotone(input.frags, input.frags.len(), input.frags.len());
        }
        let mut p2d: Vec<usize> = Vec::new();
        let mut k: usize = 0;
        while k <= plain_len
            invariant
                0 <= k <= plain_len + 1,
                plain_len + 1 < usize::MAX,
                p2d@ == repeat(0, k as nat),
            decreases plain_len + 1 - k,
        {
            p2d.push(0);
            k = k + 1;
            assert(p2d@ =~= repeat(0, k as nat));
        }
        let mut d2p: Vec<usize> = Vec::new();
        d2p.push(0);
        let mut b = ProjectionBuilder {
            projected: Vec::new(),
            segments: Vec::new(),
            p2d,
            d2p,
            link_spans: Vec::new(),
            footnote_spans: Vec::new(),
            plain: 0,
            display: 0,
            any: false,
            prefix_range: None,
            head_closed: footnote_head_len.is_none(),
            index: 0,
        };
        assert(b.state().pieces =~= Seq::<ProjectedView>::empty());
        assert(b.d2p@ =~= seq![0usize]);
        match block_prefix {
            Some(prefix) => {
                if !prefix.is_empty() {
                    let plen = prefix.len();
                    let ghost before = b.state();
                    let ghost piece = plain_syntax(prefix@);
                    b.projected.push(
                        ProjectedFragment::Syntax {
                            text: String::from_str(prefix),
                            style: InlineStyle::plain(),
                            style_of: None,
                            html_style_of: None,
                            link_of: None,
                            footnote_of: None,
                        },
                    );
                    b.segments.push(
                        ExpandedInlineSegment {
                            display_range: Range { start: 0, end: plen },
                            plain_range: Range { start: 0, end: 0 },
                            fragment_index: 0,
                            link_group: None,
                            kind: ExpandedInlineSegmentKind::BlockPrefix,
                        },
                    );
                    b.push_d2p_repeat(0, plen);
                    let ghost pj = b.projected@;
                    let ghost sg = b.segments@;
                    let ghost dp = b.d2p@;
                    let m = b.p2d.len();
                    let mut q: usize = 0;
                    while q < m
                        invariant
                            m == b.p2d@.len(),
                            m == plain_len + 1,
                            0 <= q <= m,
                            forall|j: int| 0 <= j < q ==> #[trigger] b.p2d@[j] == plen,
                            forall|j: int| q <= j < m ==> #[trigger] b.p2d@[j] == 0,
                            b.projected@ == pj,
                            b.segments@ == sg,
                            b.d2p@ == dp,
                            b.link_spans@ == Seq::<ExpandedLinkSpan>::empty(),
                            b.footnote_spans@ == Seq::<ExpandedFootnoteSpan>::empty(),
                            b.plain == 0,
                            b.display == 0,
                            b.any == false,
                            b.prefix_range == None::<Range<usize>>,
                            b.head_closed == footnote_head_len.is_none(),
                            b.index == 0,
                        decreases m - q,
                    {
                        b.p2d.set(q, plen);
                        q = q + 1;
                    }
                    assert(b.p2d@ =~= repeat(plen, (plain_len + 1) as nat));
                    assert(b.state().pieces =~= before.pieces.push(piece));
                    b.display = plen;
                    if footnote_head_len.is_none() {
                        b.prefix_range = Some(Range { start: 0, end: plen });
                    }
                    b.any = true;
                }
            },
            None => {},
        }
        b
    }
}

/// The cursor map with the fixups of the first `n` segments stays as long.
pub proof fn lemma_fixup_len(p2d: Seq<usize>, segs: Seq<ExpandedInlineSegment>, n: nat)
    requires
        n <= segs.len(),
        forall|i: int| 0 <= i < segs.len() ==> #[trigger] segs[i].plain_range.start < p2d.len(),
    ensures
        fixup(p2d, segs, n).len() == p2d.len(),
    decreases n,
{
    if n > 0 {
        lemma_fixup_len(p2d, segs, (n - 1) as nat);
    }
}

impl ExpandedInlineProjection {
    /// Projects the Markdown syntax of the fragments that the caret, the
    /// selection `plain_selected` or the IME range `plain_marked` touch,
    /// after the block prefix (a heading's `## `, or a footnote
    /// definition's `[^` when `footnote_head_len` gives the length of its
    /// id). Footnote references always show their syntax; strikethrough
    /// and scripts always show their delimiters. `None` when nothing is
    /// projected.
    pub fn build_with_prefix(
        fragments: &[InlineFragment],
        plain_selected: Range<usize>,
        plain_marked: Option<Range<usize>>,
        block_prefix: Option<&str>,
        footnote_head_len: Option<usize>,
    ) -> (r: Option<ExpandedInlineProjection>)
        requires
            build_fits(fragments@, prefix_view(block_prefix)),
        ensures
            ({
                let fin = build_final(
                    BuildInput {
                        frags: fragments@,
                        selected: plain_selected,
                        marked: plain_marked,
                        head: footnote_head_len,
                    },
                    prefix_view(block_prefix),
                );
                match r {
                    Some(p) => {
                        &&& fin.any
                        &&& p.wf()
                        &&& projection_of(p, fin)
                        &&& p.plain_to_display_cursor@.len() == plain_sum(fragments@, fragments@.len()) + 1
                        &&& p.display_to_plain@[p.display_to_plain@.len() - 1] == plain_sum(
                            fragments@,
                            fragments@.len(),
                        )
                        &&& forall|a: int, b: int|
                            0 <= a <= b < p.display_to_plain@.len() ==> #[trigger] p.display_to_plain@[a]
                                <= #[trigger] p.display_to_plain@[b]
                        &&& no_footnotes(fragments@) ==> forall|q: int|
                            0 <= q <= plain_sum(fragments@, fragments@.len()) ==> p.display_to_plain@[
                                #[trigger] p.plain_to_display_cursor@[q] as int] == q
                        &&& link_markers_shown(fragments@) ==> delimiters_nonempty(p.segments@)
                    },
                    None => !fin.any,
                }
            }),
    {
        let ghost input = BuildInput {
            frags: fragments@,
            selected: plain_selected,
            marked: plain_marked,
            head: footnote_head_len,
        };
        let ghost fin = build_final(input, prefix_view(block_prefix));
        let n = fragments.len();
        proof {
            lemma_sums_monotone(fragments@, n as nat, n as nat);
        }
        let mut plain_len: usize = 0;
        let mut k: usize = 0;
        while k < n
            invariant
                n == fragments@.len(),
                0 <= k <= n,
                plain_len == plain_sum(fragments@, k as nat),
                plain_sum(fragments@, n as nat) <= budget_sum(fragments@, n as nat),
                build_fits(fragments@, prefix_view(block_prefix)),
            decreases n - k,
        {
            proof {
                lemma_sums_step(fragments@, k as nat);
            }
            plain_len = plain_len + fragments[k].text.as_str().len();
            k = k + 1;
        }
        let mut builder = ProjectionBuilder::start(plain_len, block_prefix, footnote_head_len, Ghost(input));
        let marked = plain_marked.as_ref();
        assert(marked_view(marked) == plain_marked);
        while builder.index < n
            invariant
                n == fragments@.len(),
                input.frags == fragments@,
                input.selected == plain_selected,
                input.marked == marked_view(marked),
                input.head == footnote_head_len,
                builder.ready(input),
                builder.state().run(input) == fin,
            decreases n - builder.index,
        {
            let i = builder.index;
            let fragment = &fragments[i];
            let len = fragment.text.as_str().len();
            proof {
                lemma_sums_step(fragments@, i as nat);
            }
            if len == 0 {
                builder.index = i + 1;
            } else if fragment.footnote.is_some() {
                builder.footnote_step(fragments, Ghost(input));
            } else if fragment.link.is_some() {
                builder.link_step(fragments, &plain_selected, marked, Ghost(input));
            } else {
                let split = match footnote_head_len {
                    Some(h) => !builder.head_closed && builder.plain < h && h < builder.plain + len,
                    None => false,
                };
                if split {
                    let h = footnote_head_len.unwrap();
                    builder.head_step(fragments, h, Ghost(input));
                } else {
                    builder.plain_step(fragments, &plain_selected, marked, Ghost(input));
                }
            }
        }
        assert(builder.state() == fin);
        if !builder.any {
            return None;
        }
        assert(fin.p2d.len() == plain_sum(fragments@, fragments@.len()) + 1);
        let p = builder.finish(Ghost(fin));
        proof {
            lemma_fixup_len(fin.p2d, fin.segments, fin.segments.len());
            lemma_build_display_map(input, prefix_view(block_prefix));
            if no_footnotes(fragments@) {
                lemma_build_caret_round_trip(input, prefix_view(block_prefix));
            }
            if link_markers_shown(fragments@) {
                lemma_built_delimiters_nonempty(input, prefix_view(block_prefix));
            }
        }
        Some(p)
    }
}

impl ProjectionBuilder {
    /// The finished projection, with the caret fixups applied to the
    /// cursor map.
    fn finish(self, Ghost(fin): Ghost<BuildState>) -> (result: ExpandedInlineProjection)
        requires
            self.state() == fin,
            fin.wf(),
        ensures
            result.wf(),
            projection_of(result, fin),
    {
        let ProjectionBuilder {
            projected,
            segments,
            mut p2d,
            d2p,
            link_spans,
            footnote_spans,
            prefix_range,
            ..
        } = self;
        let ghost p0 = p2d@;
        let m = segments.len();
        let mut t: usize = 0;
        while t < m
            invariant
                m == segments@.len(),
                0 <= t <= m,
                fin.segments == segments@,
                fin.p2d == p0,
                fin.wf(),
                p2d@ == fixup(p0, segments@, t as nat),
                p2d@.len() == p0.len(),
                forall|j: int| 0 <= j < p2d@.len() ==> #[trigger] p2d@[j] <= fin.display,
            decreases m - t,
        {
            proof {
                lemma_fixup_len(p0, segments@, t as nat);
            }
            let segment = &segments[t];
            let ghost before = p2d@;
            match segment.kind {
                ExpandedInlineSegmentKind::OpeningDelimiter(kind) => {
                    if caret_inside(kind) {
                        p2d.set(segment.plain_range.start, segment.display_range.end);
                    }
                },
                ExpandedInlineSegmentKind::ClosingDelimiter(kind) => {
                    if caret_inside(kind) {
                        p2d.set(segment.plain_range.start, segment.display_range.start);
                    }
                },
                _ => {},
            }
            assert(p2d@ == fixup_entry(before, segments@[t as int]));
            assert(fixup(p0, segments@, (t + 1) as nat) == fixup_entry(
                fixup(p0, segments@, t as nat),
                segments@[t as int],
            ));
            t = t + 1;
        }
        let result = ExpandedInlineProjection {
            projected,
            segments,
            block_prefix_range: prefix_range,
            plain_to_display_cursor: p2d,
            display_to_plain: d2p,
            link_spans,
            footnote_spans,
        };
        assert(result.pieces() =~= fin.pieces);
        assert forall|i: int|
            0 <= i < result.segments@.len() && (#[trigger] result.projected@[i])@ is Syntax implies result.segments@[i].display_range.end
                - result.segments@[i].display_range.start == blen(result.projected@[i]@->Syntax_text) by {
            assert(fin.pieces[i] == result.projected@[i]@);
        }
        result
    }
}

impl ProjectionBuilder {
    /// Appends a footnote's editable id over plain bytes `start..end`; the
    /// cursor maps scale between the plain and the id bytes.
    fn push_footnote_id(&mut self, id: String, style: InlineStyle, i: usize, start: usize, end: usize)
        requires
            old(self).state().wf(),
            start < end,
            end + 1 < usize::MAX,
            end < old(self).p2d@.len(),
            old(self).display + blen(id@) + 1 < usize::MAX,
        ensures
            final(self).state().wf(),
            final(self).same_frame(old(self)),
            final(self).display == old(self).display + blen(id@),
            final(self).state() == (BuildState {
                pieces: old(self).state().pieces.push(
                    ProjectedView::Syntax {
                        text: id@,
                        style,
                        style_of: Some(i),
                        html_style_of: Some(i),
                        link_of: None,
                        footnote_of: Some(i),
                    },
                ),
                segments: old(self).state().segments.push(
                    seg(
                        old(self).display as nat,
                        blen(id@),
                        Range { start, end },
                        i as nat,
                        None,
                        ExpandedInlineSegmentKind::FootnoteIdText,
                    ),
                ),
                p2d: fill_scaled(
                    old(self).state().p2d,
                    start as nat,
                    (end - start) as nat,
                    old(self).display as nat,
                    blen(id@),
                ),
                d2p: old(self).state().d2p + scaled_back(start as nat, (end - start) as nat, blen(id@)),
                display: (old(self).display + blen(id@)) as nat,
                ..old(self).state()
            }),
    {
        let ghost s1 = self.state();
        let id_len = id.as_str().len();
        let len = end - start;
        let base = self.display;
        let ghost id_view = id@;
        self.projected.push(
            ProjectedFragment::Syntax {
                text: id,
                style,
                style_of: Some(i),
                html_style_of: Some(i),
                link_of: None,
                footnote_of: Some(i),
            },
        );
        self.segments.push(
            ExpandedInlineSegment {
                display_range: Range { start: base, end: base + id_len },
                plain_range: Range { start, end },
                fragment_index: i,
                link_group: None,
                kind: ExpandedInlineSegmentKind::FootnoteIdText,
            },
        );
        self.fill_p2d_scaled(start, len, base, id_len);
        self.push_d2p_scaled(start, len, id_len);
        self.display = base + id_len;
        let ghost piece = ProjectedView::Syntax {
            text: id_view,
            style,
            style_of: Some(i),
            html_style_of: Some(i),
            link_of: None,
            footnote_of: Some(i),
        };
        assert(self.state().pieces =~= s1.pieces.push(piece));
        assert(self.state().pieces[self.state().pieces.len() - 1] == piece);
        proof {
            let st = self.state();
            assert forall|j: int| 0 <= j < st.d2p.len() implies #[trigger] st.d2p[j] < st.p2d.len() by {
                if j >= s1.d2p.len() {
                    let k = j - s1.d2p.len();
                    lemma_scaled_le(len as int, k + 1, id_len as int);
                }
            }
            assert forall|j: int| 0 <= j < st.p2d.len() implies #[trigger] st.p2d[j] <= st.display by {
                if start <= j <= start + len {
                    lemma_scaled_le(id_len as int, j - start, len as int);
                }
            }
        }
    }
}

} // verus!
