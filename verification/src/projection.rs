//! Inline projection of editable Markdown delimiters.
//!
//! While the caret, the selection or an IME composition touches a styled
//! fragment, a link or a footnote reference, the editor shows its Markdown
//! syntax (`**`, `[`…`](`…`)`, `[^`…`]`, …) around the plain text. The
//! projection lists the pieces to display, a segment for each piece, and
//! the offset maps between plain text and displayed text (byte offsets).

use std::ops::Range;
use vstd::prelude::*;
use vstd::string::StringExecFns;

verus! {

/// Vertical script of a fragment.
#[derive(Clone, Copy, Debug, PartialEq, Eq, Structural)]
pub enum InlineScript {
    Normal,
    Superscript,
    Subscript,
}

/// The character that delimits bold or italic text.
#[derive(Clone, Copy, Debug, PartialEq, Eq, Structural)]
pub enum EmphasisMarker {
    Asterisk,
    Underscore,
}

impl EmphasisMarker {
    pub open spec fn spec_char(self) -> char {
        match self {
            EmphasisMarker::Asterisk => '*',
            EmphasisMarker::Underscore => '_',
        }
    }

    /// The marker character.
    pub fn char(&self) -> (c: char)
        ensures
            c == self.spec_char(),
    {
        match self {
            EmphasisMarker::Asterisk => '*',
            EmphasisMarker::Underscore => '_',
        }
    }
}

/// The inline style attributes the projection reads.
#[derive(Clone, Copy, Debug, PartialEq, Eq, Structural)]
pub struct InlineStyle {
    pub bold: bool,
    pub italic: bool,
    pub strikethrough: bool,
    pub code: bool,
    pub script: InlineScript,
    pub bold_marker: EmphasisMarker,
    pub italic_marker: EmphasisMarker,
    /// Whether the italic delimiters enclose the bold ones.
    pub italic_outer: bool,
}

impl InlineStyle {
    pub open spec fn plain_spec() -> InlineStyle {
        InlineStyle {
            bold: false,
            italic: false,
            strikethrough: false,
            code: false,
            script: InlineScript::Normal,
            bold_marker: EmphasisMarker::Asterisk,
            italic_marker: EmphasisMarker::Asterisk,
            italic_outer: false,
        }
    }

    /// Unstyled text.
    pub fn plain() -> (s: InlineStyle)
        ensures
            s == InlineStyle::plain_spec(),
    {
        InlineStyle {
            bold: false,
            italic: false,
            strikethrough: false,
            code: false,
            script: InlineScript::Normal,
            bold_marker: EmphasisMarker::Asterisk,
            italic_marker: EmphasisMarker::Asterisk,
            italic_outer: false,
        }
    }
}

/// The syntax of an inline link as the projection shows it.
#[derive(Debug)]
pub struct InlineLink {
    /// Identity of the link within the block: fragments carry the same
    /// link exactly when their keys are equal.
    pub key: usize,
    /// Opening syntax, such as `[`.
    pub open_marker: String,
    /// Syntax between label and target, such as `](`.
    pub middle_marker: Option<String>,
    /// The editable target text.
    pub editable_text: Option<String>,
    /// Closing syntax, such as `)`.
    pub close_marker: String,
}

/// A footnote reference carried by a fragment.
#[derive(Debug)]
pub struct InlineFootnoteReference {
    pub id: String,
}

/// One styled run of a block's plain text.
#[derive(Debug)]
pub struct InlineFragment {
    pub text: String,
    pub style: InlineStyle,
    pub link: Option<InlineLink>,
    pub footnote: Option<InlineFootnoteReference>,
    /// Whether this fragment's superscript or subscript can be written
    /// with the compact Markdown markers (`^`, `~`) after the fragment
    /// before it; otherwise the HTML tags are used.
    pub markdown_script_delimiters: bool,
}

/// Caret placement at a delimiter boundary.
#[derive(Clone, Copy, Debug, PartialEq, Eq, Structural)]
pub enum CollapsedCaretAffinity {
    Default,
    OuterStart,
    OuterEnd,
}

/// Inline construct whose Markdown delimiters can be projected.
#[derive(Clone, Copy, Debug, PartialEq, Eq, Structural)]
pub enum ExpandedInlineKind {
    Link,
    BoldMarkdown { marker: char },
    ItalicMarkdown { marker: char },
    Strikethrough,
    Code,
    SuperscriptMarkdown,
    SuperscriptHtml,
    SubscriptMarkdown,
    SubscriptHtml,
}

/// Display role of one projected segment.
#[derive(Clone, Copy, Debug, PartialEq, Eq, Structural)]
pub enum ExpandedInlineSegmentKind {
    /// Editable block-level syntax such as an ATX heading prefix.
    BlockPrefix,
    /// Text with no projected syntax.
    PlainText,
    /// Text carrying projected style.
    StyledText,
    OpeningDelimiter(ExpandedInlineKind),
    MiddleDelimiter(ExpandedInlineKind),
    /// Editable link target text.
    LinkTargetText,
    /// Editable footnote id text.
    FootnoteIdText,
    ClosingDelimiter(ExpandedInlineKind),
}

/// Byte length of UTF-8 text.
pub open spec fn blen(s: Seq<char>) -> nat {
    vstd::utf8::encode_utf8(s).len()
}

/// Opening delimiter text of each kind.
pub open spec fn open_marker_text(kind: ExpandedInlineKind) -> Seq<char> {
    match kind {
        ExpandedInlineKind::Link => "["@,
        ExpandedInlineKind::BoldMarkdown { marker } => if marker == '_' {
            "__"@
        } else {
            "**"@
        },
        ExpandedInlineKind::ItalicMarkdown { marker } => if marker == '*' {
            "*"@
        } else if marker == '_' {
            "_"@
        } else {
            "**"@
        },
        ExpandedInlineKind::Strikethrough => "~~"@,
        ExpandedInlineKind::Code => "`"@,
        ExpandedInlineKind::SuperscriptMarkdown => "^"@,
        ExpandedInlineKind::SuperscriptHtml => "<sup>"@,
        ExpandedInlineKind::SubscriptMarkdown => "~"@,
        ExpandedInlineKind::SubscriptHtml => "<sub>"@,
    }
}

/// Closing delimiter text of each kind.
pub open spec fn close_marker_text(kind: ExpandedInlineKind) -> Seq<char> {
    match kind {
        ExpandedInlineKind::Link => ")"@,
        ExpandedInlineKind::SuperscriptHtml => "</sup>"@,
        ExpandedInlineKind::SubscriptHtml => "</sub>"@,
        _ => open_marker_text(kind),
    }
}

/// Whether `kind` marks a style that `style` carries.
pub open spec fn kind_applies(kind: ExpandedInlineKind, style: InlineStyle) -> bool {
    match kind {
        ExpandedInlineKind::Link => false,
        ExpandedInlineKind::BoldMarkdown { .. } => style.bold,
        ExpandedInlineKind::ItalicMarkdown { .. } => style.italic,
        ExpandedInlineKind::Strikethrough => style.strikethrough,
        ExpandedInlineKind::Code => style.code,
        ExpandedInlineKind::SuperscriptMarkdown | ExpandedInlineKind::SuperscriptHtml => style.script
            == InlineScript::Superscript,
        ExpandedInlineKind::SubscriptMarkdown | ExpandedInlineKind::SubscriptHtml => style.script
            == InlineScript::Subscript,
    }
}

impl ExpandedInlineKind {
    /// Whether this kind marks a style that `style` carries.
    pub fn applies_to(self, style: InlineStyle) -> (b: bool)
        ensures
            b == kind_applies(self, style),
    {
        match self {
            Self::Link => false,
            Self::BoldMarkdown { .. } => style.bold,
            Self::ItalicMarkdown { .. } => style.italic,
            Self::Strikethrough => style.strikethrough,
            Self::Code => style.code,
            Self::SuperscriptMarkdown | Self::SuperscriptHtml => {
                style.script == InlineScript::Superscript
            },
            Self::SubscriptMarkdown | Self::SubscriptHtml => {
                style.script == InlineScript::Subscript
            },
        }
    }

    /// The opening delimiter.
    pub fn open_marker(self) -> (r: &'static str)
        ensures
            r@ == open_marker_text(self),
    {
        proof {
            reveal_strlit("[");
            reveal_strlit("**");
            reveal_strlit("__");
            reveal_strlit("*");
            reveal_strlit("_");
            reveal_strlit("~~");
            reveal_strlit("`");
            reveal_strlit("^");
            reveal_strlit("<sup>");
            reveal_strlit("~");
            reveal_strlit("<sub>");
        }
        match self {
            Self::Link => "[",
            Self::BoldMarkdown { marker } => if marker == '_' {
                "__"
            } else {
                "**"
            },
            Self::ItalicMarkdown { marker } => if marker == '*' {
                "*"
            } else if marker == '_' {
                "_"
            } else {
                "**"
            },
            Self::Strikethrough => "~~",
            Self::Code => "`",
            Self::SuperscriptMarkdown => "^",
            Self::SuperscriptHtml => "<sup>",
            Self::SubscriptMarkdown => "~",
            Self::SubscriptHtml => "<sub>",
        }
    }

    /// The closing delimiter.
    pub fn close_marker(self) -> (r: &'static str)
        ensures
            r@ == close_marker_text(self),
    {
        proof {
            reveal_strlit(")");
            reveal_strlit("</sup>");
            reveal_strlit("</sub>");
        }
        match self {
            Self::Link => ")",
            Self::SuperscriptHtml => "</sup>",
            Self::SubscriptHtml => "</sub>",
            _ => self.open_marker(),
        }
    }
}

/// Whether two half-open ranges share a position.
pub open spec fn overlaps(left: Range<usize>, right: Range<usize>) -> bool {
    left.start < right.end && right.start < left.end
}

/// Whether a range holds no position.
pub open spec fn range_is_empty(r: Range<usize>) -> bool {
    !(r.start < r.end)
}

/// Whether the fragment spanning `fragment_range` is touched by the IME
/// composition, the selection, or (for an empty selection) the caret,
/// which touches a fragment at either end.
pub open spec fn touched(
    fragment_range: Range<usize>,
    selected: Range<usize>,
    marked: Option<Range<usize>>,
) -> bool {
    if marked matches Some(m) && !range_is_empty(m) && overlaps(fragment_range, m) {
        true
    } else if !range_is_empty(selected) {
        overlaps(fragment_range, selected)
    } else {
        fragment_range.start <= selected.start <= fragment_range.end
    }
}

/// The script delimiters of the fragment at `index`, if it has a script.
pub open spec fn script_kind(fragments: Seq<InlineFragment>, index: int) -> Option<ExpandedInlineKind> {
    if 0 <= index < fragments.len() {
        let f = fragments[index];
        match f.style.script {
            InlineScript::Normal => None,
            InlineScript::Superscript => if f.markdown_script_delimiters {
                Some(ExpandedInlineKind::SuperscriptMarkdown)
            } else {
                Some(ExpandedInlineKind::SuperscriptHtml)
            },
            InlineScript::Subscript => if !f.style.strikethrough && f.markdown_script_delimiters {
                Some(ExpandedInlineKind::SubscriptMarkdown)
            } else {
                Some(ExpandedInlineKind::SubscriptHtml)
            },
        }
    } else {
        None
    }
}

/// Whether the delimiters of `kind` show whether or not the fragment is
/// touched.
pub open spec fn always_expanded(kind: ExpandedInlineKind) -> bool {
    match kind {
        ExpandedInlineKind::Strikethrough | ExpandedInlineKind::SuperscriptMarkdown
        | ExpandedInlineKind::SuperscriptHtml | ExpandedInlineKind::SubscriptMarkdown
        | ExpandedInlineKind::SubscriptHtml => true,
        _ => false,
    }
}

/// The candidate delimiter kinds of a fragment, outermost first: the outer
/// emphasis, strikethrough, script, the inner emphasis, code.
pub open spec fn candidate_kinds(
    fragments: Seq<InlineFragment>,
    index: int,
    style: InlineStyle,
) -> Seq<Option<ExpandedInlineKind>> {
    let bold = if style.bold {
        Some(ExpandedInlineKind::BoldMarkdown { marker: style.bold_marker.spec_char() })
    } else {
        None
    };
    let italic = if style.italic {
        Some(ExpandedInlineKind::ItalicMarkdown { marker: style.italic_marker.spec_char() })
    } else {
        None
    };
    let (first, second) = if style.italic_outer {
        (italic, bold)
    } else {
        (bold, italic)
    };
    seq![
        first,
        Some(ExpandedInlineKind::Strikethrough),
        script_kind(fragments, index),
        second,
        Some(ExpandedInlineKind::Code),
    ]
}

/// Whether a candidate is shown: it applies to the style and is either
/// always shown or the fragment is touched.
pub open spec fn kind_shown(
    candidate: Option<ExpandedInlineKind>,
    style: InlineStyle,
    is_touched: bool,
) -> bool {
    match candidate {
        Some(k) => kind_applies(k, style) && (always_expanded(k) || is_touched),
        None => false,
    }
}

/// The shown kinds among the first `n` candidates, in order.
pub open spec fn shown_kinds(
    candidates: Seq<Option<ExpandedInlineKind>>,
    style: InlineStyle,
    is_touched: bool,
    n: nat,
) -> Seq<ExpandedInlineKind>
    decreases n,
{
    if n == 0 {
        seq![]
    } else {
        let rest = shown_kinds(candidates, style, is_touched, (n - 1) as nat);
        if kind_shown(candidates[n - 1], style, is_touched) {
            rest.push(candidates[n - 1]->0)
        } else {
            rest
        }
    }
}

/// At most `n` kinds are shown among `n` candidates.
pub proof fn lemma_shown_kinds_len(
    candidates: Seq<Option<ExpandedInlineKind>>,
    style: InlineStyle,
    is_touched: bool,
    n: nat,
)
    ensures
        shown_kinds(candidates, style, is_touched, n).len() <= n,
    decreases n,
{
    if n > 0 {
        lemma_shown_kinds_len(candidates, style, is_touched, (n - 1) as nat);
    }
}

/// Whether a kind is a Markdown script delimiter (`^` or `~`).
pub open spec fn is_markdown_script(kind: ExpandedInlineKind) -> bool {
    kind is SuperscriptMarkdown || kind is SubscriptMarkdown
}

/// The script delimiters of a fragment follow its script and its
/// permission to use Markdown script syntax: none without a script; `^`
/// for a superscript that may use Markdown syntax, `<sup>` otherwise; `~`
/// for a subscript that may use Markdown syntax and is not struck
/// through, `<sub>` otherwise. A fragment that may not use Markdown script
/// syntax never gets `^` or `~`.
pub proof fn lemma_script_delimiters(fragments: Seq<InlineFragment>, index: int)
    requires
        0 <= index < fragments.len(),
    ensures
        ({
            let f = fragments[index];
            let k = script_kind(fragments, index);
            &&& f.style.script == InlineScript::Normal ==> k is None
            &&& f.style.script == InlineScript::Superscript && f.markdown_script_delimiters ==> k
                == Some(ExpandedInlineKind::SuperscriptMarkdown)
            &&& f.style.script == InlineScript::Superscript && !f.markdown_script_delimiters ==> k
                == Some(ExpandedInlineKind::SuperscriptHtml)
            &&& f.style.script == InlineScript::Subscript && f.markdown_script_delimiters
                && !f.style.strikethrough ==> k == Some(ExpandedInlineKind::SubscriptMarkdown)
            &&& f.style.script == InlineScript::Subscript && (!f.markdown_script_delimiters
                || f.style.strikethrough) ==> k == Some(ExpandedInlineKind::SubscriptHtml)
            &&& !f.markdown_script_delimiters ==> !(k matches Some(m) && is_markdown_script(m))
        }),
{
}

/// Every kind shown is one of the candidates.
proof fn lemma_shown_from_candidates(
    candidates: Seq<Option<ExpandedInlineKind>>,
    style: InlineStyle,
    is_touched: bool,
    n: nat,
    x: int,
)
    requires
        n <= candidates.len(),
        0 <= x < shown_kinds(candidates, style, is_touched, n).len(),
    ensures
        exists|j: int|
            0 <= j < n && candidates[j] == Some(#[trigger] shown_kinds(candidates, style, is_touched, n)[x]),
    decreases n,
{
    let rest = shown_kinds(candidates, style, is_touched, (n - 1) as nat);
    if x < rest.len() {
        lemma_shown_from_candidates(candidates, style, is_touched, (n - 1) as nat, x);
        let j = choose|j: int| 0 <= j < n - 1 && candidates[j] == Some(#[trigger] rest[x]);
        assert(candidates[j] == Some(shown_kinds(candidates, style, is_touched, n)[x]));
    } else {
        assert(candidates[n - 1] == Some(shown_kinds(candidates, style, is_touched, n)[x]));
    }
}

/// A fragment that may not use Markdown script syntax is never projected
/// with `^` or `~` script delimiters, whatever its style, selection or
/// composition: its script shows as `<sup>`/`</sup>` or `<sub>`/`</sub>`.
/// Nor is a struck-through subscript.
pub proof fn lemma_no_markdown_script_without_permission(
    fragments: Seq<InlineFragment>,
    index: int,
    style: InlineStyle,
    fragment_range: Range<usize>,
    selected: Range<usize>,
    marked: Option<Range<usize>>,
)
    requires
        0 <= index < fragments.len(),
        !fragments[index].markdown_script_delimiters || (fragments[index].style.script
            == InlineScript::Subscript && fragments[index].style.strikethrough),
    ensures
        forall|x: int|
            0 <= x < expanded_kinds(fragments, index, style, fragment_range, selected, marked).len()
                ==> !is_markdown_script(
                #[trigger] expanded_kinds(fragments, index, style, fragment_range, selected, marked)[x],
            ),
{
    let c = candidate_kinds(fragments, index, style);
    let t = touched(fragment_range, selected, marked);
    let ks = expanded_kinds(fragments, index, style, fragment_range, selected, marked);
    lemma_script_delimiters(fragments, index);
    assert forall|x: int| 0 <= x < ks.len() implies !is_markdown_script(#[trigger] ks[x]) by {
        lemma_shown_from_candidates(c, style, t, 5, x);
        let j = choose|j: int| 0 <= j < 5 && c[j] == Some(#[trigger] shown_kinds(c, style, t, 5)[x]);
        assert(c[j] == Some(ks[x]));
    }
}

/// The delimiter kinds projected around a fragment, outermost first.
pub open spec fn expanded_kinds(
    fragments: Seq<InlineFragment>,
    index: int,
    style: InlineStyle,
    fragment_range: Range<usize>,
    selected: Range<usize>,
    marked: Option<Range<usize>>,
) -> Seq<ExpandedInlineKind> {
    shown_kinds(
        candidate_kinds(fragments, index, style),
        style,
        touched(fragment_range, selected, marked),
        5,
    )
}

impl ExpandedInlineProjection {
    /// Two ranges overlap.
    pub fn ranges_overlap(left: &Range<usize>, right: &Range<usize>) -> (b: bool)
        ensures
            b == overlaps(*left, *right),
    {
        left.start < right.end && right.start < left.end
    }

    /// Whether the fragment spanning `fragment_range` is touched by the IME
    /// composition, the selection, or the caret.
    pub fn fragment_is_touched(
        fragment_range: Range<usize>,
        plain_selected: &Range<usize>,
        plain_marked: Option<&Range<usize>>,
    ) -> (b: bool)
        ensures
            b == touched(fragment_range, *plain_selected, match plain_marked {
                Some(m) => Some(*m),
                None => None,
            }),
    {
        if let Some(marked_range) = plain_marked {
            if marked_range.start < marked_range.end && Self::ranges_overlap(&fragment_range, marked_range) {
                return true;
            }
        }
        if plain_selected.start < plain_selected.end {
            return Self::ranges_overlap(&fragment_range, plain_selected);
        }
        let cursor = plain_selected.start;
        fragment_range.start <= cursor && cursor <= fragment_range.end
    }

    /// The script delimiters of the fragment at `fragment_index`.
    pub fn script_projection_kind(fragments: &[InlineFragment], fragment_index: usize) -> (r: Option<
        ExpandedInlineKind,
    >)
        ensures
            r == script_kind(fragments@, fragment_index as int),
    {
        if fragment_index >= fragments.len() {
            return None;
        }
        let fragment = &fragments[fragment_index];
        match fragment.style.script {
            InlineScript::Normal => None,
            InlineScript::Superscript => {
                if fragment.markdown_script_delimiters {
                    Some(ExpandedInlineKind::SuperscriptMarkdown)
                } else {
                    Some(ExpandedInlineKind::SuperscriptHtml)
                }
            },
            InlineScript::Subscript => {
                if !fragment.style.strikethrough && fragment.markdown_script_delimiters {
                    Some(ExpandedInlineKind::SubscriptMarkdown)
                } else {
                    Some(ExpandedInlineKind::SubscriptHtml)
                }
            },
        }
    }

    /// The delimiter kinds projected around fragment `fragment_index`,
    /// outermost first.
    pub fn expanded_kinds_for_fragment(
        fragments: &[InlineFragment],
        fragment_index: usize,
        style: InlineStyle,
        fragment_range: Range<usize>,
        plain_selected: &Range<usize>,
        plain_marked: Option<&Range<usize>>,
    ) -> (kinds: Vec<ExpandedInlineKind>)
        ensures
            kinds@ == expanded_kinds(
                fragments@,
                fragment_index as int,
                style,
                fragment_range,
                *plain_selected,
                match plain_marked {
                    Some(m) => Some(*m),
                    None => None,
                },
            ),
    {
        let ghost marked = match plain_marked {
            Some(m) => Some(*m),
            None => None,
        };
        let mut kinds: Vec<ExpandedInlineKind> = Vec::new();
        let script = Self::script_projection_kind(fragments, fragment_index);
        let bold = if style.bold {
            Some(ExpandedInlineKind::BoldMarkdown { marker: style.bold_marker.char() })
        } else {
            None
        };
        let italic = if style.italic {
            Some(ExpandedInlineKind::ItalicMarkdown { marker: style.italic_marker.char() })
        } else {
            None
        };
        let (first, second) = if style.italic_outer {
            (italic, bold)
        } else {
            (bold, italic)
        };
        let candidates = [first, Some(ExpandedInlineKind::Strikethrough), script, second, Some(ExpandedInlineKind::Code)];
        let is_touched = Self::fragment_is_touched(fragment_range, plain_selected, plain_marked);
        let ghost cands = candidate_kinds(fragments@, fragment_index as int, style);
        assert(candidates@ =~= cands);
        let mut i: usize = 0;
        while i < 5
            invariant
                0 <= i <= 5,
                candidates@ == cands,
                cands.len() == 5,
                is_touched == touched(fragment_range, *plain_selected, marked),
                kinds@ == shown_kinds(cands, style, is_touched, i as nat),
            decreases 5 - i,
        {
            if let Some(kind) = candidates[i] {
                if kind.applies_to(style) {
                    let always = matches!(
                        kind,
                        ExpandedInlineKind::Strikethrough | ExpandedInlineKind::SuperscriptMarkdown
                            | ExpandedInlineKind::SuperscriptHtml | ExpandedInlineKind::SubscriptMarkdown
                            | ExpandedInlineKind::SubscriptHtml
                    );
                    if always || is_touched {
                        kinds.push(kind);
                    }
                }
            }
            i = i + 1;
        }
        kinds
    }
}

/// The style of a delimiter of `kind` around a fragment styled `style`:
/// the fragment's own style, except that code delimiters drop the code
/// style.
pub open spec fn marker_style(style: InlineStyle, kind: ExpandedInlineKind) -> InlineStyle {
    if kind == ExpandedInlineKind::Code {
        InlineStyle { code: false, ..style }
    } else {
        style
    }
}

/// The style of a delimiter of `kind` around a fragment styled `style`.
pub fn marker_style_for_projection(style: InlineStyle, kind: ExpandedInlineKind) -> (r: InlineStyle)
    ensures
        r == marker_style(style, kind),
{
    let mut style = style;
    if matches!(kind, ExpandedInlineKind::Code) {
        style.code = false;
    }
    style
}

/// One displayed segment of a projection.
#[derive(Debug)]
pub struct ExpandedInlineSegment {
    pub display_range: Range<usize>,
    pub plain_range: Range<usize>,
    pub fragment_index: usize,
    pub link_group: Option<usize>,
    pub kind: ExpandedInlineSegmentKind,
}

/// A piece of projected text.
#[derive(Debug)]
pub enum ProjectedFragment {
    /// The whole source fragment `fragment_index`.
    Source { fragment_index: usize },
    /// Bytes `start..end` of source fragment `fragment_index`, with its
    /// attributes.
    SourcePart { fragment_index: usize, start: usize, end: usize },
    /// Syntax inserted by the projection. Its style is `style` over the
    /// full style of fragment `style_of` (unstyled when `None`); it carries
    /// the HTML style, link and footnote of the fragments named, if any.
    Syntax {
        text: String,
        style: InlineStyle,
        style_of: Option<usize>,
        html_style_of: Option<usize>,
        link_of: Option<usize>,
        footnote_of: Option<usize>,
    },
}

/// What a projected piece denotes.
pub enum ProjectedView {
    Source { fragment_index: usize },
    SourcePart { fragment_index: usize, start: usize, end: usize },
    Syntax {
        text: Seq<char>,
        style: InlineStyle,
        style_of: Option<usize>,
        html_style_of: Option<usize>,
        link_of: Option<usize>,
        footnote_of: Option<usize>,
    },
}

impl View for ProjectedFragment {
    type V = ProjectedView;

    open spec fn view(&self) -> ProjectedView {
        match self {
            ProjectedFragment::Source { fragment_index } => ProjectedView::Source {
                fragment_index: *fragment_index,
            },
            ProjectedFragment::SourcePart { fragment_index, start, end } => ProjectedView::SourcePart {
                fragment_index: *fragment_index,
                start: *start,
                end: *end,
            },
            ProjectedFragment::Syntax {
                text,
                style,
                style_of,
                html_style_of,
                link_of,
                footnote_of,
            } => ProjectedView::Syntax {
                text: text@,
                style: *style,
                style_of: *style_of,
                html_style_of: *html_style_of,
                link_of: *link_of,
                footnote_of: *footnote_of,
            },
        }
    }
}

/// One projected link span, covering fragments
/// `start_fragment_index..end_fragment_index` (the link is theirs).
#[derive(Debug)]
pub struct ExpandedLinkSpan {
    pub start_fragment_index: usize,
    pub end_fragment_index: usize,
    pub plain_range: Range<usize>,
    pub display_range: Range<usize>,
    pub target_display_range: Range<usize>,
}

/// One projected footnote reference span (the reference of fragment
/// `fragment_index`).
#[derive(Debug)]
pub struct ExpandedFootnoteSpan {
    pub fragment_index: usize,
    pub plain_range: Range<usize>,
    pub display_range: Range<usize>,
}

/// A projection: the displayed pieces with one segment each, the offset
/// maps, and the link and footnote spans.
#[derive(Debug)]
pub struct ExpandedInlineProjection {
    pub projected: Vec<ProjectedFragment>,
    pub segments: Vec<ExpandedInlineSegment>,
    pub block_prefix_range: Option<Range<usize>>,
    pub plain_to_display_cursor: Vec<usize>,
    pub display_to_plain: Vec<usize>,
    pub link_spans: Vec<ExpandedLinkSpan>,
    pub footnote_spans: Vec<ExpandedFootnoteSpan>,
}

/// The first `Some` that `f` gives over `s`, front to back.
pub open spec fn first_match<A, B>(s: Seq<A>, f: spec_fn(A) -> Option<B>) -> Option<B>
    decreases s.len(),
{
    if s.len() == 0 {
        None
    } else {
        match f(s[0]) {
            Some(b) => Some(b),
            None => first_match(s.drop_first(), f),
        }
    }
}

/// Scanning `s` from `i` finds what scanning the rest of `s` finds.
pub proof fn lemma_first_match_step<A, B>(s: Seq<A>, f: spec_fn(A) -> Option<B>, i: int)
    requires
        0 <= i < s.len(),
        f(s[i]) is None,
    ensures
        first_match(s.subrange(i, s.len() as int), f) == first_match(
            s.subrange(i + 1, s.len() as int),
            f,
        ),
{
    assert(s.subrange(i, s.len() as int).drop_first() =~= s.subrange(i + 1, s.len() as int));
}

/// The first hit from position `i` is the element at `i` when it hits.
pub proof fn lemma_first_match_hit<A, B>(s: Seq<A>, f: spec_fn(A) -> Option<B>, i: int)
    requires
        0 <= i < s.len(),
        f(s[i]) is Some,
    ensures
        first_match(s.subrange(i, s.len() as int), f) == f(s[i]),
{
    assert(s.subrange(i, s.len() as int)[0] == s[i]);
}

/// Caret affinity at display `offset` given by one segment: the outer
/// side of an opening delimiter's start or a closing delimiter's end.
pub open spec fn segment_affinity(offset: usize) -> spec_fn(ExpandedInlineSegment) -> Option<CollapsedCaretAffinity> {
    |seg: ExpandedInlineSegment| match seg.kind {
        ExpandedInlineSegmentKind::OpeningDelimiter(_) => if offset == seg.display_range.start {
            Some(CollapsedCaretAffinity::OuterStart)
        } else {
            None
        },
        ExpandedInlineSegmentKind::ClosingDelimiter(_) => if offset == seg.display_range.end {
            Some(CollapsedCaretAffinity::OuterEnd)
        } else {
            None
        },
        _ => None,
    }
}

/// Whether a segment is a closing delimiter starting at plain offset
/// `plain`.
pub open spec fn closes_at(seg: ExpandedInlineSegment, plain: usize) -> bool {
    seg.kind is ClosingDelimiter && seg.plain_range.start == plain
}

/// The display start of an opening delimiter at plain offset `plain`.
pub open spec fn opening_start_at(plain: usize) -> spec_fn(ExpandedInlineSegment) -> Option<usize> {
    |seg: ExpandedInlineSegment| if seg.kind is OpeningDelimiter && seg.plain_range.start == plain {
        Some(seg.display_range.start)
    } else {
        None
    }
}

/// The display end of a closing delimiter at plain offset `plain`.
pub open spec fn closing_end_at(plain: usize) -> spec_fn(ExpandedInlineSegment) -> Option<usize> {
    |seg: ExpandedInlineSegment| if closes_at(seg, plain) {
        Some(seg.display_range.end)
    } else {
        None
    }
}

/// The caret target of a left move from display `offset` across a
/// delimiter that ends there.
pub open spec fn left_target(offset: usize) -> spec_fn(ExpandedInlineSegment) -> Option<(usize, CollapsedCaretAffinity)> {
    |seg: ExpandedInlineSegment| match seg.kind {
        ExpandedInlineSegmentKind::OpeningDelimiter(_) => if offset == seg.display_range.end {
            Some((seg.display_range.start, CollapsedCaretAffinity::OuterStart))
        } else {
            None
        },
        ExpandedInlineSegmentKind::ClosingDelimiter(_) => if offset == seg.display_range.end {
            Some((seg.display_range.start, CollapsedCaretAffinity::Default))
        } else {
            None
        },
        _ => None,
    }
}

/// The caret target of a right move from display `offset` across a
/// delimiter that starts there.
pub open spec fn right_target(offset: usize) -> spec_fn(ExpandedInlineSegment) -> Option<(usize, CollapsedCaretAffinity)> {
    |seg: ExpandedInlineSegment| match seg.kind {
        ExpandedInlineSegmentKind::OpeningDelimiter(_) => if offset == seg.display_range.start {
            Some((seg.display_range.end, CollapsedCaretAffinity::Default))
        } else {
            None
        },
        ExpandedInlineSegmentKind::ClosingDelimiter(_) => if offset == seg.display_range.start {
            Some((seg.display_range.end, CollapsedCaretAffinity::OuterEnd))
        } else {
            None
        },
        _ => None,
    }
}

/// Whether a segment kind is an opening or closing delimiter.
pub open spec fn is_delimiter(kind: ExpandedInlineSegmentKind) -> bool {
    kind is OpeningDelimiter || kind is ClosingDelimiter
}

/// Every delimiter segment shows at least one byte.
pub open spec fn delimiters_nonempty(segs: Seq<ExpandedInlineSegment>) -> bool {
    forall|i: int|
        0 <= i < segs.len() && is_delimiter((#[trigger] segs[i]).kind) ==> segs[i].display_range.start
            < segs[i].display_range.end
}

/// The first match is at `k` when nothing before `k` matches.
proof fn lemma_first_match_at<A, B>(s: Seq<A>, f: spec_fn(A) -> Option<B>, k: int)
    requires
        0 <= k < s.len(),
        f(s[k]) is Some,
        forall|j: int| 0 <= j < k ==> f(#[trigger] s[j]) is None,
    ensures
        first_match(s, f) == f(s[k]),
    decreases k,
{
    if k > 0 {
        let t = s.drop_first();
        assert(f(s[0]) is None);
        assert forall|j: int| 0 <= j < k - 1 implies f(#[trigger] t[j]) is None by {
            assert(t[j] == s[j + 1]);
        }
        lemma_first_match_at(t, f, k - 1);
    }
}

/// Segments of a well-formed projection follow one another on the
/// display.
proof fn lemma_segments_ordered(p: ExpandedInlineProjection, j: int, k: int)
    requires
        p.wf(),
        0 <= j < k < p.segments@.len(),
    ensures
        p.segments@[j].display_range.end <= p.segments@[k].display_range.start,
    decreases k - j,
{
    let segs = p.segments@;
    if k > j + 1 {
        lemma_segments_ordered(p, j, k - 1);
        assert(segs[k - 1].display_range.start <= segs[k - 1].display_range.end);
    }
    assert(segs[k].display_range.start == segs[k - 1].display_range.end);
}

/// A move from one edge of a delimiter crosses exactly that delimiter:
/// right from its start lands at its end, left from its end lands at its
/// start (with the caret outside an opening delimiter, and outside a
/// closing one after a right move). This holds when every delimiter shows
/// at least one byte; a link whose open or close marker is empty breaks it.
pub proof fn lemma_delimiter_moves(p: ExpandedInlineProjection, k: int)
    requires
        p.wf(),
        delimiters_nonempty(p.segments@),
        0 <= k < p.segments@.len(),
        is_delimiter(p.segments@[k].kind),
    ensures
        ({
            let sg = p.segments@[k];
            let opens = sg.kind is OpeningDelimiter;
            &&& first_match(p.segments@, right_target(sg.display_range.start)) == Some(
                (
                    sg.display_range.end,
                    if opens {
                        CollapsedCaretAffinity::Default
                    } else {
                        CollapsedCaretAffinity::OuterEnd
                    },
                ),
            )
            &&& first_match(p.segments@, left_target(sg.display_range.end)) == Some(
                (
                    sg.display_range.start,
                    if opens {
                        CollapsedCaretAffinity::OuterStart
                    } else {
                        CollapsedCaretAffinity::Default
                    },
                ),
            )
        }),
{
    let segs = p.segments@;
    let sg = segs[k];
    assert forall|j: int| 0 <= j < k implies (right_target(sg.display_range.start))(#[trigger] segs[j]) is None
        && (left_target(sg.display_range.end))(segs[j]) is None by {
        lemma_segments_ordered(p, j, k);
        if is_delimiter(segs[j].kind) {
            assert(segs[j].display_range.start < segs[j].display_range.end);
        }
    }
    assert(sg.display_range.start < sg.display_range.end);
    lemma_first_match_at(segs, right_target(sg.display_range.start), k);
    lemma_first_match_at(segs, left_target(sg.display_range.end), k);
}

/// No match anywhere, no first match.
proof fn lemma_first_match_none<A, B>(s: Seq<A>, f: spec_fn(A) -> Option<B>)
    requires
        forall|j: int| 0 <= j < s.len() ==> f(#[trigger] s[j]) is None,
    ensures
        first_match(s, f) is None,
    decreases s.len(),
{
    if s.len() > 0 {
        let t = s.drop_first();
        assert(f(s[0]) is None);
        assert forall|j: int| 0 <= j < t.len() implies f(#[trigger] t[j]) is None by {
            assert(t[j] == s[j + 1]);
        }
        lemma_first_match_none(t, f);
    }
}

/// A move from a display offset that is no delimiter's edge crosses
/// nothing: left from an offset that ends no delimiter, and right from one
/// that starts none, give no target.
pub proof fn lemma_no_delimiter_no_move(p: ExpandedInlineProjection, offset: usize)
    ensures
        (forall|i: int|
            0 <= i < p.segments@.len() && is_delimiter((#[trigger] p.segments@[i]).kind)
                ==> p.segments@[i].display_range.end != offset) ==> first_match(
            p.segments@,
            left_target(offset),
        ) is None,
        (forall|i: int|
            0 <= i < p.segments@.len() && is_delimiter((#[trigger] p.segments@[i]).kind)
                ==> p.segments@[i].display_range.start != offset) ==> first_match(
            p.segments@,
            right_target(offset),
        ) is None,
{
    let segs = p.segments@;
    if forall|i: int|
        0 <= i < segs.len() && is_delimiter((#[trigger] segs[i]).kind) ==> segs[i].display_range.end != offset {
        assert forall|j: int| 0 <= j < segs.len() implies (left_target(offset))(#[trigger] segs[j]) is None by {
            if is_delimiter(segs[j].kind) {
                assert(segs[j].display_range.end != offset);
            }
        }
        lemma_first_match_none(segs, left_target(offset));
    }
    if forall|i: int|
        0 <= i < segs.len() && is_delimiter((#[trigger] segs[i]).kind) ==> segs[i].display_range.start != offset {
        assert forall|j: int| 0 <= j < segs.len() implies (right_target(offset))(#[trigger] segs[j]) is None by {
            if is_delimiter(segs[j].kind) {
                assert(segs[j].display_range.start != offset);
            }
        }
        lemma_first_match_none(segs, right_target(offset));
    }
}

/// The entry of a cursor map for `plain`, clamped to its last entry.
pub open spec fn clamped_entry(map: Seq<usize>, plain: usize) -> Option<usize> {
    if map.len() == 0 {
        None
    } else if plain < map.len() - 1 {
        Some(map[plain as int])
    } else {
        Some(map[map.len() - 1])
    }
}

/// Whether a display span covers `range`.
pub open spec fn covers(display: Range<usize>, range: Range<usize>) -> bool {
    display.start <= range.start && range.end <= display.end
}

impl ExpandedInlineProjection {
    /// Caret affinity at display `offset`: outside the delimiter that
    /// starts (opening) or ends (closing) there, else the default.
    pub fn collapsed_affinity_for_display_offset(&self, offset: usize) -> (r: CollapsedCaretAffinity)
        ensures
            r == match first_match(self.segments@, segment_affinity(offset)) {
                Some(a) => a,
                None => CollapsedCaretAffinity::Default,
            },
    {
        let n = self.segments.len();
        let mut i: usize = 0;
        assert(self.segments@.subrange(0, n as int) =~= self.segments@);
        while i < n
            invariant
                n == self.segments@.len(),
                0 <= i <= n,
                first_match(self.segments@, segment_affinity(offset)) == first_match(
                    self.segments@.subrange(i as int, n as int),
                    segment_affinity(offset),
                ),
            decreases n - i,
        {
            let segment = &self.segments[i];
            let hit = match segment.kind {
                ExpandedInlineSegmentKind::OpeningDelimiter(_) => if offset == segment.display_range.start {
                    Some(CollapsedCaretAffinity::OuterStart)
                } else {
                    None
                },
                ExpandedInlineSegmentKind::ClosingDelimiter(_) => if offset == segment.display_range.end {
                    Some(CollapsedCaretAffinity::OuterEnd)
                } else {
                    None
                },
                _ => None,
            };
            assert(hit == (segment_affinity(offset))(self.segments@[i as int]));
            if let Some(a) = hit {
                proof {
                    lemma_first_match_hit(self.segments@, segment_affinity(offset), i as int);
                }
                return a;
            }
            proof {
                lemma_first_match_step(self.segments@, segment_affinity(offset), i as int);
            }
            i = i + 1;
        }
        assert(self.segments@.subrange(n as int, n as int) =~= Seq::<ExpandedInlineSegment>::empty());
        CollapsedCaretAffinity::Default
    }

    /// Whether `plain` is where a projected closing delimiter starts (the
    /// end of a styled span).
    pub fn caret_closes_span_at_plain(&self, plain: usize) -> (b: bool)
        ensures
            b == exists|i: int| 0 <= i < self.segments@.len() && closes_at(#[trigger] self.segments@[i], plain),
    {
        let n = self.segments.len();
        let mut i: usize = 0;
        while i < n
            invariant
                n == self.segments@.len(),
                0 <= i <= n,
                forall|j: int| 0 <= j < i ==> !closes_at(#[trigger] self.segments@[j], plain),
            decreases n - i,
        {
            let segment = &self.segments[i];
            if matches!(segment.kind, ExpandedInlineSegmentKind::ClosingDelimiter(_))
                && segment.plain_range.start == plain {
                assert(closes_at(self.segments@[i as int], plain));
                return true;
            }
            i = i + 1;
        }
        false
    }

    /// Cursor map entry for `plain`, clamped to the last entry.
    fn clamped_display_offset(&self, plain: usize) -> (r: Option<usize>)
        ensures
            r == clamped_entry(self.plain_to_display_cursor@, plain),
    {
        let n = self.plain_to_display_cursor.len();
        if n == 0 {
            None
        } else {
            let index = if plain < n - 1 { plain } else { n - 1 };
            Some(self.plain_to_display_cursor[index])
        }
    }

    /// First segment hit of `f` over the segments.
    fn find_opening_start(&self, plain: usize) -> (r: Option<usize>)
        ensures
            r == first_match(self.segments@, opening_start_at(plain)),
    {
        let n = self.segments.len();
        let mut i: usize = 0;
        assert(self.segments@.subrange(0, n as int) =~= self.segments@);
        while i < n
            invariant
                n == self.segments@.len(),
                0 <= i <= n,
                first_match(self.segments@, opening_start_at(plain)) == first_match(
                    self.segments@.subrange(i as int, n as int),
                    opening_start_at(plain),
                ),
            decreases n - i,
        {
            let segment = &self.segments[i];
            if matches!(segment.kind, ExpandedInlineSegmentKind::OpeningDelimiter(_))
                && segment.plain_range.start == plain {
                proof {
                    lemma_first_match_hit(self.segments@, opening_start_at(plain), i as int);
                }
                return Some(segment.display_range.start);
            }
            proof {
                lemma_first_match_step(self.segments@, opening_start_at(plain), i as int);
            }
            i = i + 1;
        }
        assert(self.segments@.subrange(n as int, n as int) =~= Seq::<ExpandedInlineSegment>::empty());
        None
    }

    fn find_closing_end(&self, plain: usize) -> (r: Option<usize>)
        ensures
            r == first_match(self.segments@, closing_end_at(plain)),
    {
        let n = self.segments.len();
        let mut i: usize = 0;
        assert(self.segments@.subrange(0, n as int) =~= self.segments@);
        while i < n
            invariant
                n == self.segments@.len(),
                0 <= i <= n,
                first_match(self.segments@, closing_end_at(plain)) == first_match(
                    self.segments@.subrange(i as int, n as int),
                    closing_end_at(plain),
                ),
            decreases n - i,
        {
            let segment = &self.segments[i];
            if matches!(segment.kind, ExpandedInlineSegmentKind::ClosingDelimiter(_))
                && segment.plain_range.start == plain {
                proof {
                    lemma_first_match_hit(self.segments@, closing_end_at(plain), i as int);
                }
                return Some(segment.display_range.end);
            }
            proof {
                lemma_first_match_step(self.segments@, closing_end_at(plain), i as int);
            }
            i = i + 1;
        }
        assert(self.segments@.subrange(n as int, n as int) =~= Seq::<ExpandedInlineSegment>::empty());
        None
    }

    /// Display offset of the caret at `plain` with `affinity`: outside the
    /// delimiter at `plain` for an outer affinity, else (and when there is
    /// no such delimiter) the cursor map entry, clamped to its last entry.
    pub fn display_offset_for_plain_cursor(&self, plain: usize, affinity: CollapsedCaretAffinity) -> (r: Option<usize>)
        ensures
            r == match affinity {
                CollapsedCaretAffinity::Default => clamped_entry(self.plain_to_display_cursor@, plain),
                CollapsedCaretAffinity::OuterStart => match first_match(self.segments@, opening_start_at(plain)) {
                    Some(d) => Some(d),
                    None => clamped_entry(self.plain_to_display_cursor@, plain),
                },
                CollapsedCaretAffinity::OuterEnd => match first_match(self.segments@, closing_end_at(plain)) {
                    Some(d) => Some(d),
                    None => clamped_entry(self.plain_to_display_cursor@, plain),
                },
            },
    {
        match affinity {
            CollapsedCaretAffinity::Default => self.clamped_display_offset(plain),
            CollapsedCaretAffinity::OuterStart => match self.find_opening_start(plain) {
                Some(d) => Some(d),
                None => self.clamped_display_offset(plain),
            },
            CollapsedCaretAffinity::OuterEnd => match self.find_closing_end(plain) {
                Some(d) => Some(d),
                None => self.clamped_display_offset(plain),
            },
        }
    }

    /// Where a left move from display `offset` lands when it crosses a
    /// delimiter ending there.
    pub fn move_left_target(&self, offset: usize) -> (r: Option<(usize, CollapsedCaretAffinity)>)
        ensures
            r == first_match(self.segments@, left_target(offset)),
    {
        let n = self.segments.len();
        let mut i: usize = 0;
        assert(self.segments@.subrange(0, n as int) =~= self.segments@);
        while i < n
            invariant
                n == self.segments@.len(),
                0 <= i <= n,
                first_match(self.segments@, left_target(offset)) == first_match(
                    self.segments@.subrange(i as int, n as int),
                    left_target(offset),
                ),
            decreases n - i,
        {
            let segment = &self.segments[i];
            let hit = match segment.kind {
                ExpandedInlineSegmentKind::OpeningDelimiter(_) => if offset == segment.display_range.end {
                    Some((segment.display_range.start, CollapsedCaretAffinity::OuterStart))
                } else {
                    None
                },
                ExpandedInlineSegmentKind::ClosingDelimiter(_) => if offset == segment.display_range.end {
                    Some((segment.display_range.start, CollapsedCaretAffinity::Default))
                } else {
                    None
                },
                _ => None,
            };
            assert(hit == (left_target(offset))(self.segments@[i as int]));
            if hit.is_some() {
                proof {
                    lemma_first_match_hit(self.segments@, left_target(offset), i as int);
                }
                return hit;
            }
            proof {
                lemma_first_match_step(self.segments@, left_target(offset), i as int);
            }
            i = i + 1;
        }
        assert(self.segments@.subrange(n as int, n as int) =~= Seq::<ExpandedInlineSegment>::empty());
        None
    }

    /// Where a right move from display `offset` lands when it crosses a
    /// delimiter starting there.
    pub fn move_right_target(&self, offset: usize) -> (r: Option<(usize, CollapsedCaretAffinity)>)
        ensures
            r == first_match(self.segments@, right_target(offset)),
    {
        let n = self.segments.len();
        let mut i: usize = 0;
        assert(self.segments@.subrange(0, n as int) =~= self.segments@);
        while i < n
            invariant
                n == self.segments@.len(),
                0 <= i <= n,
                first_match(self.segments@, right_target(offset)) == first_match(
                    self.segments@.subrange(i as int, n as int),
                    right_target(offset),
                ),
            decreases n - i,
        {
            let segment = &self.segments[i];
            let hit = match segment.kind {
                ExpandedInlineSegmentKind::OpeningDelimiter(_) => if offset == segment.display_range.start {
                    Some((segment.display_range.end, CollapsedCaretAffinity::Default))
                } else {
                    None
                },
                ExpandedInlineSegmentKind::ClosingDelimiter(_) => if offset == segment.display_range.start {
                    Some((segment.display_range.end, CollapsedCaretAffinity::OuterEnd))
                } else {
                    None
                },
                _ => None,
            };
            assert(hit == (right_target(offset))(self.segments@[i as int]));
            if hit.is_some() {
                proof {
                    lemma_first_match_hit(self.segments@, right_target(offset), i as int);
                }
                return hit;
            }
            proof {
                lemma_first_match_step(self.segments@, right_target(offset), i as int);
            }
            i = i + 1;
        }
        assert(self.segments@.subrange(n as int, n as int) =~= Seq::<ExpandedInlineSegment>::empty());
        None
    }

    /// The first link span whose display range covers `range`.
    pub fn link_span_fully_covering_range(&self, range: &Range<usize>) -> (r: Option<&ExpandedLinkSpan>)
        ensures
            match r {
                Some(s) => exists|i: int|
                    0 <= i < self.link_spans@.len() && self.link_spans@[i] == *s && covers(
                        s.display_range,
                        *range,
                    ) && forall|j: int| 0 <= j < i ==> !covers(#[trigger] self.link_spans@[j].display_range, *range),
                None => forall|j: int| 0 <= j < self.link_spans@.len() ==> !covers(#[trigger] self.link_spans@[j].display_range, *range),
            },
    {
        let n = self.link_spans.len();
        let mut i: usize = 0;
        while i < n
            invariant
                n == self.link_spans@.len(),
                0 <= i <= n,
                forall|j: int| 0 <= j < i ==> !covers(#[trigger] self.link_spans@[j].display_range, *range),
            decreases n - i,
        {
            let span = &self.link_spans[i];
            if span.display_range.start <= range.start && range.end <= span.display_range.end {
                return Some(span);
            }
            i = i + 1;
        }
        None
    }

    /// The first link span over exactly `plain_range`.
    pub fn link_span_for_plain_range(&self, plain_range: &Range<usize>) -> (r: Option<&ExpandedLinkSpan>)
        ensures
            match r {
                Some(s) => exists|i: int|
                    0 <= i < self.link_spans@.len() && self.link_spans@[i] == *s && s.plain_range
                        == *plain_range && forall|j: int| 0 <= j < i ==> #[trigger] self.link_spans@[j].plain_range != *plain_range,
                None => forall|j: int| 0 <= j < self.link_spans@.len() ==> #[trigger] self.link_spans@[j].plain_range != *plain_range,
            },
    {
        let n = self.link_spans.len();
        let mut i: usize = 0;
        while i < n
            invariant
                n == self.link_spans@.len(),
                0 <= i <= n,
                forall|j: int| 0 <= j < i ==> #[trigger] self.link_spans@[j].plain_range != *plain_range,
            decreases n - i,
        {
            let span = &self.link_spans[i];
            if span.plain_range.start == plain_range.start && span.plain_range.end == plain_range.end {
                return Some(span);
            }
            i = i + 1;
        }
        None
    }

    /// The first footnote span whose display range covers `range`.
    pub fn footnote_span_fully_covering_range(&self, range: &Range<usize>) -> (r: Option<&ExpandedFootnoteSpan>)
        ensures
            match r {
                Some(s) => exists|i: int|
                    0 <= i < self.footnote_spans@.len() && self.footnote_spans@[i] == *s && covers(
                        s.display_range,
                        *range,
                    ) && forall|j: int| 0 <= j < i ==> !covers(#[trigger] self.footnote_spans@[j].display_range, *range),
                None => forall|j: int| 0 <= j < self.footnote_spans@.len() ==> !covers(#[trigger] self.footnote_spans@[j].display_range, *range),
            },
    {
        let n = self.footnote_spans.len();
        let mut i: usize = 0;
        while i < n
            invariant
                n == self.footnote_spans@.len(),
                0 <= i <= n,
                forall|j: int| 0 <= j < i ==> !covers(#[trigger] self.footnote_spans@[j].display_range, *range),
            decreases n - i,
        {
            let span = &self.footnote_spans[i];
            if span.display_range.start <= range.start && range.end <= span.display_range.end {
                return Some(span);
            }
            i = i + 1;
        }
        None
    }
}

/// Position of the first byte `x` in `b`, if any.
pub open spec fn first_byte(b: Seq<u8>, x: u8) -> Option<nat>
    decreases b.len(),
{
    if b.len() == 0 {
        None
    } else if b[0] == x {
        Some(0)
    } else {
        match first_byte(b.drop_first(), x) {
            Some(k) => Some(k + 1),
            None => None,
        }
    }
}

/// Delimiter ranges of a block prefix shown as `text` at `display`: a
/// callout marker `[!…]` colours only its `[!` and `]`; any other prefix
/// is coloured whole.
pub open spec fn prefix_delimiters(display: Range<usize>, text: Seq<char>) -> Seq<Range<usize>> {
    let b = vstd::utf8::encode_utf8(text);
    if b.len() >= 2 && b[0] == 91u8 && b[1] == 33u8 && first_byte(b, 93u8) is Some {
        let k = first_byte(b, 93u8)->0;
        seq![
            Range { start: display.start, end: (display.start + 2) as usize },
            Range { start: (display.start + k) as usize, end: (display.start + k + 1) as usize },
        ]
    } else {
        seq![display]
    }
}

/// The delimiter ranges contributed by one segment shown as `piece`.
pub open spec fn segment_delimiters(seg: ExpandedInlineSegment, piece: ProjectedView) -> Seq<Range<usize>> {
    match seg.kind {
        ExpandedInlineSegmentKind::OpeningDelimiter(_) | ExpandedInlineSegmentKind::ClosingDelimiter(_)
        | ExpandedInlineSegmentKind::MiddleDelimiter(_) => seq![seg.display_range],
        ExpandedInlineSegmentKind::BlockPrefix => match piece {
            ProjectedView::Syntax { text, .. } => prefix_delimiters(seg.display_range, text),
            _ => seq![seg.display_range],
        },
        _ => seq![],
    }
}

/// The delimiter ranges of the first `n` segments, in order.
pub open spec fn delimiters_upto(
    segs: Seq<ExpandedInlineSegment>,
    pieces: Seq<ProjectedView>,
    n: nat,
) -> Seq<Range<usize>>
    decreases n,
{
    if n == 0 {
        seq![]
    } else {
        delimiters_upto(segs, pieces, (n - 1) as nat) + segment_delimiters(segs[n - 1], pieces[n - 1])
    }
}

/// First position of byte `x` in `b`.
fn find_byte(b: &[u8], x: u8) -> (r: Option<usize>)
    ensures
        match first_byte(b@, x) {
            Some(k) => r == Some(k as usize),
            None => r.is_none(),
        },
{
    let n = b.len();
    let mut i: usize = 0;
    while i < n
        invariant
            n == b@.len(),
            0 <= i <= n,
            forall|j: int| 0 <= j < i ==> b@[j] != x,
        decreases n - i,
    {
        if b[i] == x {
            proof {
                lemma_first_byte_at(b@, x, i as int);
            }
            return Some(i);
        }
        i = i + 1;
    }
    proof {
        lemma_first_byte_none(b@, x);
    }
    None
}

/// The first byte `x` sits at `i` when no earlier byte is `x`.
pub proof fn lemma_first_byte_at(b: Seq<u8>, x: u8, i: int)
    requires
        0 <= i < b.len(),
        b[i] == x,
        forall|j: int| 0 <= j < i ==> b[j] != x,
    ensures
        first_byte(b, x) == Some(i as nat),
    decreases i,
{
    if i > 0 {
        lemma_first_byte_at(b.drop_first(), x, i - 1);
    }
}

/// No byte `x`, no position.
pub proof fn lemma_first_byte_none(b: Seq<u8>, x: u8)
    requires
        forall|j: int| 0 <= j < b.len() ==> b[j] != x,
    ensures
        first_byte(b, x) is None,
    decreases b.len(),
{
    if b.len() > 0 {
        lemma_first_byte_none(b.drop_first(), x);
    }
}

/// The first byte `x`, when there is one, lies inside `b`.
pub proof fn lemma_first_byte_bound(b: Seq<u8>, x: u8)
    ensures
        first_byte(b, x) matches Some(k) ==> k < b.len() && b[k as int] == x,
    decreases b.len(),
{
    if b.len() > 0 {
        lemma_first_byte_bound(b.drop_first(), x);
    }
}

impl ExpandedInlineProjection {
    /// The length of the display text: where the last segment ends.
    pub open spec fn display_len(&self) -> nat {
        if self.segments@.len() == 0 {
            0
        } else {
            self.segments@[self.segments@.len() - 1].display_range.end as nat
        }
    }

    /// Each segment has its piece and a syntax piece spans its text's
    /// bytes; the segments tile the display text from offset zero and lie
    /// within the plain text; the display map has an entry for every
    /// display offset; every entry of either map lies within the other
    /// text.
    pub open spec fn wf(&self) -> bool {
        let segs = self.segments@;
        &&& self.projected@.len() == segs.len()
        &&& forall|i: int|
            0 <= i < segs.len() ==> #[trigger] segs[i].display_range.start <= segs[i].display_range.end
                && segs[i].display_range.end <= self.display_len()
        &&& forall|i: int|
            0 <= i < segs.len() ==> #[trigger] segs[i].plain_range.start
                < self.plain_to_display_cursor@.len() && segs[i].plain_range.end
                < self.plain_to_display_cursor@.len()
        &&& forall|i: int|
            0 <= i < segs.len() && (#[trigger] self.projected@[i])@ is Syntax ==> segs[i].display_range.end
                - segs[i].display_range.start == blen(self.projected@[i]@->Syntax_text)
        &&& forall|i: int|
            0 < i < segs.len() ==> #[trigger] segs[i].display_range.start == segs[i - 1].display_range.end
        &&& segs.len() > 0 ==> segs[0].display_range.start == 0
        &&& self.display_to_plain@.len() == self.display_len() + 1
        &&& self.display_to_plain@[0] == 0
        &&& forall|j: int|
            0 <= j < self.display_to_plain@.len() ==> #[trigger] self.display_to_plain@[j]
                < self.plain_to_display_cursor@.len()
        &&& forall|j: int|
            0 <= j < self.plain_to_display_cursor@.len() ==> #[trigger] self.plain_to_display_cursor@[j]
                <= self.display_len()
    }

    /// The projected pieces.
    pub open spec fn pieces(&self) -> Seq<ProjectedView> {
        self.projected@.map_values(|p: ProjectedFragment| p@)
    }

    /// Display ranges of the projected delimiters (`**`, `~`, `^`, `[^`,
    /// `]`, backticks, heading prefixes), in segment order.
    pub fn delimiter_ranges(&self) -> (ranges: Vec<Range<usize>>)
        requires
            self.wf(),
        ensures
            ranges@ == delimiters_upto(self.segments@, self.pieces(), self.segments@.len()),
    {
        let n = self.segments.len();
        let mut ranges: Vec<Range<usize>> = Vec::new();
        let mut i: usize = 0;
        while i < n
            invariant
                n == self.segments@.len(),
                self.wf(),
                0 <= i <= n,
                ranges@ == delimiters_upto(self.segments@, self.pieces(), i as nat),
            decreases n - i,
        {
            let segment = &self.segments[i];
            let start = segment.display_range.start;
            let end = segment.display_range.end;
            let ghost before = ranges@;
            assert(self.pieces()[i as int] == self.projected@[i as int]@);
            match segment.kind {
                ExpandedInlineSegmentKind::OpeningDelimiter(_)
                | ExpandedInlineSegmentKind::ClosingDelimiter(_)
                | ExpandedInlineSegmentKind::MiddleDelimiter(_) => {
                    ranges.push(Range { start, end });
                },
                ExpandedInlineSegmentKind::BlockPrefix => {
                    match &self.projected[i] {
                        ProjectedFragment::Syntax { text, .. } => {
                            let bytes = text.as_str().as_bytes();
                            let bracket = find_byte(bytes, 93u8);
                            proof {
                                lemma_first_byte_bound(bytes@, 93u8);
                            }
                            if bytes.len() >= 2 && bytes[0] == 91u8 && bytes[1] == 33u8 && bracket.is_some() {
                                let k = bracket.unwrap();
                                ranges.push(Range { start, end: start + 2 });
                                ranges.push(Range { start: start + k, end: start + k + 1 });
                            } else {
                                ranges.push(Range { start, end });
                            }
                        },
                        _ => {
                            ranges.push(Range { start, end });
                        },
                    }
                },
                _ => {},
            }
            assert(ranges@ =~= before + segment_delimiters(self.segments@[i as int], self.pieces()[i as int]));
            i = i + 1;
        }
        ranges
    }
}

/// Inputs of a projection build, as the specification reads them.
pub struct BuildInput {
    pub frags: Seq<InlineFragment>,
    pub selected: Range<usize>,
    pub marked: Option<Range<usize>>,
    pub head: Option<usize>,
}

/// A projection under construction.
pub struct BuildState {
    pub pieces: Seq<ProjectedView>,
    pub segments: Seq<ExpandedInlineSegment>,
    pub p2d: Seq<usize>,
    pub d2p: Seq<usize>,
    pub links: Seq<ExpandedLinkSpan>,
    pub footnotes: Seq<ExpandedFootnoteSpan>,
    pub plain: nat,
    pub display: nat,
    pub any: bool,
    pub prefix_range: Option<Range<usize>>,
    pub head_closed: bool,
    pub index: nat,
}

/// Byte length of a fragment's text.
pub open spec fn flen(f: InlineFragment) -> nat {
    blen(f.text@)
}

/// Total byte length of the first `k` fragments.
pub open spec fn plain_sum(frags: Seq<InlineFragment>, k: nat) -> nat
    decreases k,
{
    if k == 0 || k > frags.len() {
        0
    } else {
        plain_sum(frags, (k - 1) as nat) + flen(frags[k - 1])
    }
}

/// `n` copies of `v`.
pub open spec fn repeat(v: usize, n: nat) -> Seq<usize> {
    Seq::new(n, |k: int| v)
}

/// `start + 1, …, start + n`.
pub open spec fn ramp(start: usize, n: nat) -> Seq<usize> {
    Seq::new(n, |k: int| (start + 1 + k) as usize)
}

/// `map` with entries `start ..= start + len` set to `base, …, base + len`.
pub open spec fn fill_ramp(map: Seq<usize>, start: nat, len: nat, base: nat) -> Seq<usize> {
    Seq::new(
        map.len(),
        |j: int| if start <= j <= start + len {
            (base + (j - start)) as usize
        } else {
            map[j]
        },
    )
}

/// `map` with entries `start ..= start + len` set to `base` plus the
/// offset scaled from `len` to `id_len`.
pub open spec fn fill_scaled(map: Seq<usize>, start: nat, len: nat, base: nat, id_len: nat) -> Seq<usize> {
    Seq::new(
        map.len(),
        |j: int| if start <= j <= start + len {
            (base + (id_len * (j - start)) / (len as int)) as usize
        } else {
            map[j]
        },
    )
}

/// `start + (len * k) / id_len` for `k` in `1 ..= id_len`.
pub open spec fn scaled_back(start: nat, len: nat, id_len: nat) -> Seq<usize> {
    Seq::new(id_len, |k: int| (start + (len * (k + 1)) / (id_len as int)) as usize)
}

/// A segment.
pub open spec fn seg(
    display: nat,
    len: nat,
    plain: Range<usize>,
    fragment_index: nat,
    group: Option<usize>,
    kind: ExpandedInlineSegmentKind,
) -> ExpandedInlineSegment {
    ExpandedInlineSegment {
        display_range: Range { start: display as usize, end: (display + len) as usize },
        plain_range: plain,
        fragment_index: fragment_index as usize,
        link_group: group,
        kind,
    }
}

/// An empty plain range at `at`.
pub open spec fn at_range(at: usize) -> Range<usize> {
    Range { start: at, end: at }
}

/// Unstyled syntax text.
pub open spec fn plain_syntax(text: Seq<char>) -> ProjectedView {
    ProjectedView::Syntax {
        text,
        style: InlineStyle::plain_spec(),
        style_of: None,
        html_style_of: None,
        link_of: None,
        footnote_of: None,
    }
}

impl BuildState {
    /// Each segment has its piece and a syntax piece spans its text's
    /// bytes; the segments tile the display text from offset zero; the
    /// display map has an entry for every display offset; every entry of
    /// either map lies within the other text.
    pub open spec fn wf(self) -> bool {
        layout_wf(self.pieces, self.segments, self.p2d, self.d2p, self.display)
    }
}

/// The layout facts of a projection under construction: see
/// `BuildState::wf`.
pub open spec fn layout_wf(
    pieces: Seq<ProjectedView>,
    segs: Seq<ExpandedInlineSegment>,
    p2d: Seq<usize>,
    d2p: Seq<usize>,
    display: nat,
) -> bool {
    &&& pieces.len() == segs.len()
    &&& forall|i: int|
        0 <= i < segs.len() ==> (#[trigger] segs[i]).display_range.start <= segs[i].display_range.end
            && segs[i].display_range.end <= display
    &&& forall|i: int|
        0 <= i < segs.len() ==> (#[trigger] segs[i]).plain_range.start < p2d.len()
            && segs[i].plain_range.end < p2d.len()
    &&& forall|i: int|
        0 <= i < segs.len() && (#[trigger] pieces[i]) is Syntax ==> segs[i].display_range.end
            - segs[i].display_range.start == blen(pieces[i]->Syntax_text)
    &&& forall|i: int|
        0 < i < segs.len() ==> (#[trigger] segs[i]).display_range.start == segs[i - 1].display_range.end
    &&& if segs.len() == 0 {
        display == 0
    } else {
        segs[0].display_range.start == 0 && segs[segs.len() - 1].display_range.end == display
    }
    &&& d2p.len() == display + 1
    &&& d2p[0] == 0
    &&& forall|j: int| 0 <= j < d2p.len() ==> #[trigger] d2p[j] < p2d.len()
    &&& forall|j: int| 0 <= j < p2d.len() ==> #[trigger] p2d[j] <= display
}

/// Display bytes a fragment can add at most: its text, the delimiters of
/// five styles, and its link's or footnote's syntax.
pub open spec fn fbudget(f: InlineFragment) -> nat {
    flen(f) + 60 + match f.link {
        Some(l) => blen(l.open_marker@) + match l.middle_marker {
            Some(m) => blen(m@),
            None => 0,
        } + match l.editable_text {
            Some(t) => blen(t@),
            None => 0,
        } + blen(l.close_marker@),
        None => 0,
    } + match f.footnote {
        Some(r) => blen(r.id@),
        None => 0,
    }
}

/// Total display budget of the first `k` fragments.
pub open spec fn budget_sum(frags: Seq<InlineFragment>, k: nat) -> nat
    decreases k,
{
    if k == 0 || k > frags.len() {
        0
    } else {
        budget_sum(frags, (k - 1) as nat) + fbudget(frags[k - 1])
    }
}

/// Sums over more fragments are no smaller, and plain text fits in the
/// budget.
pub proof fn lemma_sums_monotone(frags: Seq<InlineFragment>, a: nat, b: nat)
    requires
        a <= b <= frags.len(),
    ensures
        plain_sum(frags, a) <= plain_sum(frags, b),
        budget_sum(frags, a) <= budget_sum(frags, b),
        plain_sum(frags, b) - plain_sum(frags, a) <= budget_sum(frags, b) - budget_sum(frags, a),
        plain_sum(frags, b) <= budget_sum(frags, b),
    decreases b,
{
    if b > 0 {
        if a < b {
            lemma_sums_monotone(frags, a, (b - 1) as nat);
        } else {
            lemma_sums_monotone(frags, (b - 1) as nat, (b - 1) as nat);
        }
    }
}

impl BuildState {
    /// Appends syntax `piece` (text `text`) as a segment at plain offset
    /// `at`; every displayed byte maps back to `at`.
    pub open spec fn push_syntax(
        self,
        piece: ProjectedView,
        text: Seq<char>,
        kind: ExpandedInlineSegmentKind,
        at: usize,
        fi: nat,
        group: Option<usize>,
    ) -> BuildState {
        BuildState {
            pieces: self.pieces.push(piece),
            segments: self.segments.push(seg(self.display, blen(text), at_range(at), fi, group, kind)),
            d2p: self.d2p + repeat(at, blen(text)),
            display: self.display + blen(text),
            ..self
        }
    }

    /// Appends `piece` showing plain bytes `range` one to one.
    pub open spec fn push_text(
        self,
        piece: ProjectedView,
        range: Range<usize>,
        fi: nat,
        group: Option<usize>,
        kind: ExpandedInlineSegmentKind,
    ) -> BuildState {
        let len = (range.end - range.start) as nat;
        BuildState {
            pieces: self.pieces.push(piece),
            segments: self.segments.push(seg(self.display, len, range, fi, group, kind)),
            p2d: fill_ramp(self.p2d, range.start as nat, len, self.display),
            d2p: self.d2p + ramp(range.start, len),
            display: self.display + len,
            ..self
        }
    }

    /// Appends the opening delimiters of the first `k` of `kinds`.
    pub open spec fn open_all(
        self,
        kinds: Seq<ExpandedInlineKind>,
        style: InlineStyle,
        fi: nat,
        at: usize,
        group: Option<usize>,
        k: nat,
    ) -> BuildState
        decreases k,
    {
        if k == 0 {
            self
        } else {
            let kind = kinds[k - 1];
            self.open_all(kinds, style, fi, at, group, (k - 1) as nat).push_syntax(
                ProjectedView::Syntax {
                    text: open_marker_text(kind),
                    style: marker_style(style, kind),
                    style_of: Some(fi as usize),
                    html_style_of: Some(fi as usize),
                    link_of: None,
                    footnote_of: None,
                },
                open_marker_text(kind),
                ExpandedInlineSegmentKind::OpeningDelimiter(kind),
                at,
                fi,
                group,
            )
        }
    }

    /// Appends the closing delimiters of the last `k` of `kinds`, innermost
    /// first.
    pub open spec fn close_all(
        self,
        kinds: Seq<ExpandedInlineKind>,
        style: InlineStyle,
        fi: nat,
        at: usize,
        group: Option<usize>,
        k: nat,
    ) -> BuildState
        decreases k,
    {
        if k == 0 {
            self
        } else {
            let kind = kinds[kinds.len() - k];
            self.close_all(kinds, style, fi, at, group, (k - 1) as nat).push_syntax(
                ProjectedView::Syntax {
                    text: close_marker_text(kind),
                    style: marker_style(style, kind),
                    style_of: Some(fi as usize),
                    html_style_of: Some(fi as usize),
                    link_of: None,
                    footnote_of: None,
                },
                close_marker_text(kind),
                ExpandedInlineSegmentKind::ClosingDelimiter(kind),
                at,
                fi,
                group,
            )
        }
    }

    /// Appends a fragment shown as `piece` over plain bytes `range`,
    /// wrapped in the delimiters of `kinds` (outermost first).
    pub open spec fn emit_fragment(
        self,
        piece: ProjectedView,
        fi: nat,
        range: Range<usize>,
        style: InlineStyle,
        kinds: Seq<ExpandedInlineKind>,
        group: Option<usize>,
        force_styled: bool,
    ) -> BuildState {
        let opened = self.open_all(kinds, style, fi, range.start, group, kinds.len());
        let kind = if kinds.len() == 0 && !force_styled {
            ExpandedInlineSegmentKind::PlainText
        } else {
            ExpandedInlineSegmentKind::StyledText
        };
        let texted = opened.push_text(piece, range, fi, group, kind);
        let closed = texted.close_all(kinds, style, fi, range.end, group, kinds.len());
        BuildState { any: self.any || kinds.len() > 0, ..closed }
    }
}

} // verus!
