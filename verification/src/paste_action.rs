//! What a paste into a focused block does, from the block's situation and
//! the clipboard's content.

use crate::text::{chars_of, lemma_replaced_chars, replace_all, replaced};
use vstd::prelude::*;
use vstd::string::{StrSliceExecFns, StringExecFns};

verus! {

/// The situation of the block that receives a paste.
#[derive(Clone, Copy, Debug, PartialEq, Eq, Structural)]
pub struct PasteContext {
    /// The block is a thematic break (`---`).
    pub thematic_break: bool,
    /// The block edits its text verbatim (code, raw HTML, math).
    pub edits_verbatim_text: bool,
    /// A selection spans several blocks.
    pub cross_block_selection: bool,
    /// The block is a table cell.
    pub table_cell: bool,
    /// How deeply the block is quoted.
    pub quote_depth: usize,
}

/// What a paste does.
#[derive(Debug, PartialEq, Eq)]
pub enum PasteAction {
    /// Nothing.
    Ignore,
    /// Insert the clipboard's image.
    PasteClipboardImage,
    /// Insert the image file that the clipboard text names.
    PasteImagePath,
    /// Replace the cross-block selection with the text.
    ReplaceCrossBlockSelection(String),
    /// Insert the text in the block.
    InsertText(String),
    /// Split the block and insert the lines as blocks.
    PasteMultiline(Vec<String>),
}

/// What a paste denotes.
pub enum PasteActionView {
    Ignore,
    PasteClipboardImage,
    PasteImagePath,
    ReplaceCrossBlockSelection(Seq<char>),
    InsertText(Seq<char>),
    PasteMultiline(Seq<Seq<char>>),
}

impl View for PasteAction {
    type V = PasteActionView;

    open spec fn view(&self) -> PasteActionView {
        match self {
            PasteAction::Ignore => PasteActionView::Ignore,
            PasteAction::PasteClipboardImage => PasteActionView::PasteClipboardImage,
            PasteAction::PasteImagePath => PasteActionView::PasteImagePath,
            PasteAction::ReplaceCrossBlockSelection(t) => PasteActionView::ReplaceCrossBlockSelection(t@),
            PasteAction::InsertText(t) => PasteActionView::InsertText(t@),
            PasteAction::PasteMultiline(lines) => PasteActionView::PasteMultiline(
                lines@.map_values(|l: String| l@),
            ),
        }
    }
}

/// Line breaks written as spaces, for a table cell.
pub open spec fn flattened(t: Seq<char>) -> Seq<char> {
    replaced(replaced(replaced(t, "\r\n"@, " "@), "\r"@, " "@), "\n"@, " "@)
}

/// Line breaks written as `\n`.
pub open spec fn normalized(t: Seq<char>) -> Seq<char> {
    replaced(replaced(t, "\r\n"@, "\n"@), "\r"@, "\n"@)
}

/// The lines of `t` from a line starting at `start`, scanning from `k`.
pub open spec fn lines_from(t: Seq<char>, start: int, k: int) -> Seq<Seq<char>>
    decreases t.len() - k,
{
    if k >= t.len() {
        seq![t.subrange(start, t.len() as int)]
    } else if t[k] == '\n' {
        seq![t.subrange(start, k)] + lines_from(t, k + 1, k + 1)
    } else {
        lines_from(t, start, k + 1)
    }
}

/// The lines of `t`, split at each `\n`.
pub open spec fn lines_of(t: Seq<char>) -> Seq<Seq<char>> {
    lines_from(t, 0, 0)
}

/// What pasting `text` does: a thematic break takes nothing; an image
/// on the clipboard, or text naming an image file, is inserted as an
/// image; text replaces a cross-block selection; a table cell takes the
/// text on one line; a verbatim block takes it as it is; a quoted block
/// takes it with `\n` line breaks; other text with line breaks becomes
/// blocks, one per line.
pub open spec fn paste_outcome(
    ctx: PasteContext,
    clipboard_has_image: bool,
    text: Option<Seq<char>>,
    text_names_image: bool,
) -> PasteActionView {
    if ctx.thematic_break && !ctx.edits_verbatim_text {
        PasteActionView::Ignore
    } else if clipboard_has_image {
        PasteActionView::PasteClipboardImage
    } else {
        match text {
            None => PasteActionView::Ignore,
            Some(t) => if text_names_image {
                PasteActionView::PasteImagePath
            } else if ctx.cross_block_selection {
                PasteActionView::ReplaceCrossBlockSelection(t)
            } else if ctx.table_cell {
                PasteActionView::InsertText(flattened(t))
            } else if ctx.edits_verbatim_text {
                PasteActionView::InsertText(t)
            } else if t.contains('\n') || t.contains('\r') {
                if ctx.quote_depth > 0 {
                    PasteActionView::InsertText(normalized(t))
                } else {
                    PasteActionView::PasteMultiline(lines_of(normalized(t)))
                }
            } else {
                PasteActionView::InsertText(t)
            },
        }
    }
}

/// Whether `t` holds `c`.
fn holds_char(t: &str, c: char) -> (b: bool)
    ensures
        b == t@.contains(c),
{
    let chars = chars_of(t);
    let mut k: usize = 0;
    while k < chars.len()
        invariant
            chars@ == t@,
            0 <= k <= chars@.len(),
            forall|j: int| 0 <= j < k ==> chars@[j] != c,
        decreases chars@.len() - k,
    {
        if chars[k] == c {
            assert(t@[k as int] == c);
            return true;
        }
        k = k + 1;
    }
    false
}

/// The lines of `t`, split at each `\n`.
fn split_lines(t: &str) -> (lines: Vec<String>)
    ensures
        lines@.map_values(|l: String| l@) == lines_of(t@),
{
    let chars = chars_of(t);
    let n = chars.len();
    let mut lines: Vec<String> = Vec::new();
    let mut start: usize = 0;
    let mut k: usize = 0;
    let ghost s = t@;
    while k < n
        invariant
            chars@ == s,
            s == t@,
            n == s.len(),
            0 <= start <= k <= n,
            lines@.map_values(|l: String| l@) + lines_from(s, start as int, k as int) == lines_of(s),
        decreases n - k,
    {
        if chars[k] == '\n' {
            let piece = String::from_str(t.substring_char(start, k));
            let ghost before = lines@.map_values(|l: String| l@);
            lines.push(piece);
            assert(lines@.map_values(|l: String| l@) =~= before.push(s.subrange(start as int, k as int)));
            assert(lines@.map_values(|l: String| l@) + lines_from(s, (k + 1) as int, (k + 1) as int)
                =~= before + lines_from(s, start as int, k as int));
            start = k + 1;
        }
        k = k + 1;
    }
    let ghost before = lines@.map_values(|l: String| l@);
    lines.push(String::from_str(t.substring_char(start, n)));
    assert(lines@.map_values(|l: String| l@) =~= before.push(s.subrange(start as int, n as int)));
    lines
}

/// What pasting into a block in situation `ctx` does. `text` is the
/// clipboard's text, if any, and `text_names_image` whether it names a
/// local image file.
pub fn paste_action(
    ctx: &PasteContext,
    clipboard_has_image: bool,
    text: Option<&str>,
    text_names_image: bool,
) -> (action: PasteAction)
    ensures
        action@ == paste_outcome(
            *ctx,
            clipboard_has_image,
            match text {
                Some(t) => Some(t@),
                None => None,
            },
            text_names_image,
        ),
{
    proof {
        reveal_strlit("\r\n");
        reveal_strlit("\r");
        reveal_strlit("\n");
        reveal_strlit(" ");
    }
    if ctx.thematic_break && !ctx.edits_verbatim_text {
        return PasteAction::Ignore;
    }
    if clipboard_has_image {
        return PasteAction::PasteClipboardImage;
    }
    let t = match text {
        Some(t) => t,
        None => {
            return PasteAction::Ignore;
        },
    };
    if text_names_image {
        return PasteAction::PasteImagePath;
    }
    if ctx.cross_block_selection {
        return PasteAction::ReplaceCrossBlockSelection(String::from_str(t));
    }
    if ctx.table_cell {
        let one = replace_all(t, "\r\n", " ");
        let two = replace_all(one.as_str(), "\r", " ");
        let flat = replace_all(two.as_str(), "\n", " ");
        return PasteAction::InsertText(flat);
    }
    if ctx.edits_verbatim_text {
        return PasteAction::InsertText(String::from_str(t));
    }
    if holds_char(t, '\n') || holds_char(t, '\r') {
        let one = replace_all(t, "\r\n", "\n");
        let normal = replace_all(one.as_str(), "\r", "\n");
        if ctx.quote_depth > 0 {
            return PasteAction::InsertText(normal);
        }
        return PasteAction::PasteMultiline(split_lines(normal.as_str()));
    }
    PasteAction::InsertText(String::from_str(t))
}

/// How a multi-line paste is laid out in blocks.
#[derive(Clone, Copy, Debug, PartialEq, Eq, Structural)]
pub struct MultilinePastePlan {
    /// The first pasted line joins the text before the caret in the
    /// current block (plain text); otherwise every line goes to the
    /// Markdown importer (structural Markdown).
    pub first_line_into_block: bool,
    /// The index of the first line that becomes new blocks.
    pub tail_start: usize,
    /// No new block: the text after the caret follows in the current
    /// block, and the caret goes to its end.
    pub stays_in_block: bool,
    /// An empty paragraph follows the new blocks, to hold the text after
    /// the caret of a structural paste.
    pub trailing_paragraph: bool,
    /// The current block goes: a structural paste onto an empty line
    /// leaves no blank line above the new blocks.
    pub drop_current_block: bool,
}

/// The layout of a paste of `line_count` lines. `split_physical_lines`
/// tells plain text (split line by line) from structural Markdown;
/// `leading_empty` and `trailing_empty` whether the current block holds
/// no text before and after the caret. No lines: nothing to do.
pub open spec fn multiline_plan(
    line_count: nat,
    split_physical_lines: bool,
    leading_empty: bool,
    trailing_empty: bool,
) -> Option<MultilinePastePlan> {
    if line_count == 0 {
        None
    } else {
        let structural = !split_physical_lines;
        let tail_start: nat = if structural { 0 } else { 1 };
        let stays = tail_start >= line_count;
        Some(
            MultilinePastePlan {
                first_line_into_block: !structural,
                tail_start: tail_start as usize,
                stays_in_block: stays,
                trailing_paragraph: !stays && structural && !trailing_empty,
                drop_current_block: !stays && structural && leading_empty,
            },
        )
    }
}

/// What a multi-line paste does, for every input. Without lines there is
/// no plan. Plain text (split line by line) puts its first line into the
/// current block and the rest in new blocks, staying in the block when
/// there is only one line. Structural Markdown sends every line to the
/// importer and never stays in the block; it adds an empty paragraph
/// after the new blocks exactly when text follows the caret (so an empty
/// tail adds none), and drops the current block exactly when nothing
/// precedes the caret. Plain text neither adds that paragraph nor drops
/// the block.
pub proof fn lemma_multiline_plan_law(
    line_count: nat,
    split_physical_lines: bool,
    leading_empty: bool,
    trailing_empty: bool,
)
    ensures
        ({
            let r = multiline_plan(line_count, split_physical_lines, leading_empty, trailing_empty);
            &&& r is None <==> line_count == 0
            &&& r matches Some(p) ==> {
                &&& p.first_line_into_block == split_physical_lines
                &&& p.tail_start == (if split_physical_lines { 1usize } else { 0usize })
                &&& p.stays_in_block == (split_physical_lines && line_count == 1)
                &&& p.trailing_paragraph == (!split_physical_lines && !trailing_empty)
                &&& p.drop_current_block == (!split_physical_lines && leading_empty)
                &&& p.trailing_paragraph ==> !trailing_empty && !p.stays_in_block
            }
        }),
{
}

/// The layout of a paste of `line_count` lines; see `multiline_plan`.
pub fn multiline_paste_plan(
    line_count: usize,
    split_physical_lines: bool,
    leading_empty: bool,
    trailing_empty: bool,
) -> (plan: Option<MultilinePastePlan>)
    ensures
        plan == multiline_plan(line_count as nat, split_physical_lines, leading_empty, trailing_empty),
{
    if line_count == 0 {
        return None;
    }
    let structural = !split_physical_lines;
    let tail_start: usize = if structural { 0 } else { 1 };
    let stays = tail_start >= line_count;
    Some(
        MultilinePastePlan {
            first_line_into_block: !structural,
            tail_start,
            stays_in_block: stays,
            trailing_paragraph: !stays && structural && !trailing_empty,
            drop_current_block: !stays && structural && leading_empty,
        },
    )
}

/// Text pasted into a table cell is one line: no line break survives.
pub proof fn lemma_flattened_is_one_line(t: Seq<char>)
    ensures
        !flattened(t).contains('\n'),
        !flattened(t).contains('\r'),
{
    reveal_strlit("\r\n");
    reveal_strlit("\r");
    reveal_strlit("\n");
    reveal_strlit(" ");
    let r1 = replaced(t, "\r\n"@, " "@);
    let r2 = replaced(r1, "\r"@, " "@);
    assert(!" "@.contains('\r')) by {
        assert(" "@[0] != '\r');
    }
    assert(!" "@.contains('\n')) by {
        assert(" "@[0] != '\n');
    }
    lemma_replaced_chars(r1, "\r"@, " "@, '\r');
    lemma_replaced_chars(r2, "\n"@, " "@, '\r');
    lemma_replaced_chars(r2, "\n"@, " "@, '\n');
    assert("\r"@ =~= seq!['\r']);
    assert("\n"@ =~= seq!['\n']);
}

/// Normalized text breaks lines with `\n` only.
pub proof fn lemma_normalized_has_no_carriage_return(t: Seq<char>)
    ensures
        !normalized(t).contains('\r'),
{
    reveal_strlit("\r\n");
    reveal_strlit("\r");
    reveal_strlit("\n");
    let r1 = replaced(t, "\r\n"@, "\n"@);
    assert(!"\n"@.contains('\r')) by {
        assert("\n"@[0] != '\r');
    }
    lemma_replaced_chars(r1, "\r"@, "\n"@, '\r');
    assert("\r"@ =~= seq!['\r']);
}

/// Each line found from a line that starts at `start` holds only
/// characters of the text, and no `\n`.
proof fn lemma_lines_from_chars(t: Seq<char>, start: int, k: int)
    requires
        0 <= start <= k <= t.len(),
        forall|j: int| start <= j < k ==> t[j] != '\n',
    ensures
        forall|i: int, c: char|
            0 <= i < lines_from(t, start, k).len() && (#[trigger] lines_from(t, start, k)[i].contains(c))
                ==> t.contains(c) && c != '\n',
    decreases t.len() - k,
{
    if k >= t.len() {
        let line = t.subrange(start, t.len() as int);
        assert(lines_from(t, start, k) =~= seq![line]);
        assert forall|c: char| line.contains(c) implies t.contains(c) && c != '\n' by {
            let j = choose|j: int| 0 <= j < line.len() && line[j] == c;
            assert(t[start + j] == c);
        }
    } else if t[k] == '\n' {
        lemma_lines_from_chars(t, k + 1, k + 1);
        let line = t.subrange(start, k);
        let rest = lines_from(t, k + 1, k + 1);
        assert(lines_from(t, start, k) == seq![line] + rest);
        assert forall|c: char| line.contains(c) implies t.contains(c) && c != '\n' by {
            let j = choose|j: int| 0 <= j < line.len() && line[j] == c;
            assert(t[start + j] == c);
        }
        assert forall|i: int, c: char|
            0 <= i < (seq![line] + rest).len() && (#[trigger] (seq![line] + rest)[i].contains(c))
            implies t.contains(c) && c != '\n' by {
            if i > 0 {
                assert((seq![line] + rest)[i] == rest[i - 1]);
            }
        }
    } else {
        lemma_lines_from_chars(t, start, k + 1);
        assert(lines_from(t, start, k) == lines_from(t, start, k + 1));
    }
}

/// The blocks of a multi-line paste are single lines: none holds a `\n`
/// or a `\r`.
pub proof fn lemma_multiline_paste_lines_are_single(ctx: PasteContext, t: Seq<char>)
    requires
        paste_outcome(ctx, false, Some(t), false) is PasteMultiline,
    ensures
        forall|i: int|
            0 <= i < paste_outcome(ctx, false, Some(t), false)->PasteMultiline_0.len() ==> {
                &&& !(#[trigger] paste_outcome(ctx, false, Some(t), false)->PasteMultiline_0[i]).contains('\n')
                &&& !paste_outcome(ctx, false, Some(t), false)->PasteMultiline_0[i].contains('\r')
            },
{
    let n = normalized(t);
    lemma_normalized_has_no_carriage_return(t);
    lemma_lines_from_chars(n, 0, 0);
    let lines = lines_of(n);
    assert forall|i: int| 0 <= i < lines.len() implies !(#[trigger] lines[i]).contains('\n')
        && !lines[i].contains('\r') by {
        if lines[i].contains('\n') {
            assert(lines_from(n, 0, 0)[i].contains('\n'));
        }
        if lines[i].contains('\r') {
            assert(lines_from(n, 0, 0)[i].contains('\r'));
        }
    }
}

/// Lines written back one after another, with a `\n` between two lines.
pub open spec fn joined(lines: Seq<Seq<char>>) -> Seq<char>
    decreases lines.len(),
{
    if lines.len() == 0 {
        Seq::empty()
    } else if lines.len() == 1 {
        lines[0]
    } else {
        lines[0] + seq!['\n'] + joined(lines.drop_first())
    }
}

/// The lines found from a line that starts at `start`, joined again, give
/// back the text from `start` on.
proof fn lemma_lines_from_rejoin(t: Seq<char>, start: int, k: int)
    requires
        0 <= start <= k <= t.len(),
        forall|j: int| start <= j < k ==> t[j] != '\n',
    ensures
        lines_from(t, start, k).len() >= 1,
        joined(lines_from(t, start, k)) == t.subrange(start, t.len() as int),
    decreases t.len() - k,
{
    if k >= t.len() {
    } else if t[k] == '\n' {
        lemma_lines_from_rejoin(t, k + 1, k + 1);
        let line = t.subrange(start, k);
        let rest = lines_from(t, k + 1, k + 1);
        let all = seq![line] + rest;
        assert(lines_from(t, start, k) == all);
        assert(all.drop_first() =~= rest);
        assert(all[0] == line);
        assert(joined(all) == line + seq!['\n'] + joined(rest));
        assert(line + seq!['\n'] + t.subrange(k + 1, t.len() as int) =~= t.subrange(start, t.len() as int));
    } else {
        lemma_lines_from_rejoin(t, start, k + 1);
        assert(lines_from(t, start, k) == lines_from(t, start, k + 1));
    }
}

/// Splitting text into lines loses nothing: the lines, joined with `\n`,
/// are the text again.
pub proof fn lemma_lines_rejoin(t: Seq<char>)
    ensures
        joined(lines_of(t)) == t,
{
    lemma_lines_from_rejoin(t, 0, 0);
    assert(t.subrange(0, t.len() as int) =~= t);
}

/// A multi-line paste into an unquoted block gives one block per line, and
/// those lines, joined with `\n`, are the pasted text with its line breaks
/// written as `\n`.
pub proof fn lemma_multiline_paste_keeps_text(ctx: PasteContext, t: Seq<char>)
    requires
        paste_outcome(ctx, false, Some(t), false) is PasteMultiline,
    ensures
        joined(paste_outcome(ctx, false, Some(t), false)->PasteMultiline_0) == normalized(t),
{
    lemma_lines_rejoin(normalized(t));
}

} // verus!
