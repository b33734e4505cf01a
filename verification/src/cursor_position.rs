//! The line and column of a caret, as the status bar shows them.

use crate::projection::blen;
use crate::text::{chars_of, push_char};
use unicode_segmentation::UnicodeSegmentation;
use vstd::prelude::*;

verus! {

/// The number of extended grapheme clusters (Unicode Standard Annex #29)
/// of `s`.
pub uninterp spec fn extended_graphemes(s: Seq<char>) -> nat;

/// `UnicodeSegmentation::graphemes(s, true).count()`: the number of
/// extended grapheme clusters of `s`. A cluster holds at least one
/// character, and a text with characters has at least one cluster; the
/// count itself is left to its name.
#[verifier::external_body]
fn grapheme_count(s: &str) -> (n: usize)
    ensures
        n == extended_graphemes(s@),
        n <= s@.len(),
        n == 0 <==> s@.len() == 0,
{
    s.graphemes(true).count()
}

/// The number of leading whole characters of `cs` within `budget` bytes.
pub open spec fn chars_within(cs: Seq<char>, budget: int) -> nat
    decreases cs.len(),
{
    if cs.len() == 0 {
        0
    } else if blen(seq![cs[0]]) <= budget {
        1 + chars_within(cs.drop_first(), budget - blen(seq![cs[0]]))
    } else {
        0
    }
}

/// The number of line breaks in `s`.
pub open spec fn line_breaks(s: Seq<char>) -> nat
    decreases s.len(),
{
    if s.len() == 0 {
        0
    } else {
        line_breaks(s.drop_last()) + if s.last() == '\n' {
            1nat
        } else {
            0nat
        }
    }
}

/// Where the last line of `s` starts: after its last line break, or at
/// the start.
pub open spec fn last_line_start(s: Seq<char>) -> nat
    decreases s.len(),
{
    if s.len() == 0 {
        0
    } else if s.last() == '\n' {
        s.len()
    } else {
        last_line_start(s.drop_last())
    }
}

/// The 1-based line and column of a caret `offset` bytes into `text`,
/// moved back to the start of the character it falls in; the column
/// counts grapheme clusters.
pub open spec fn line_col(text: Seq<char>, offset: usize) -> (nat, nat) {
    let before = text.take(chars_within(text, offset as int) as int);
    (
        line_breaks(before) + 1,
        extended_graphemes(before.subrange(last_line_start(before) as int, before.len() as int)) + 1,
    )
}

/// The bytes of one character.
fn char_width(c: char) -> (w: usize)
    ensures
        w == blen(seq![c]),
        1 <= w <= 4,
{
    proof {
        vstd::utf8::char_is_scalar(c);
        assert(seq![c].drop_first() =~= Seq::<char>::empty());
        assert(vstd::utf8::encode_utf8(Seq::<char>::empty()) =~= Seq::<u8>::empty());
        assert(vstd::utf8::encode_utf8(seq![c]) == vstd::utf8::encode_scalar(c as u32)
            + vstd::utf8::encode_utf8(seq![c].drop_first()));
    }
    let u = c as u32;
    if u < 0x80 {
        1
    } else if u < 0x800 {
        2
    } else if u < 0x10000 {
        3
    } else {
        4
    }
}

/// The count of whole characters within `budget` bytes grows one
/// character at a time.
proof fn lemma_chars_within_step(cs: Seq<char>, k: int, used: int, budget: int)
    requires
        0 <= k < cs.len(),
        used == blen(cs.take(k)),
        chars_within(cs, budget) >= k,
    ensures
        used + blen(seq![cs[k]]) <= budget ==> chars_within(cs, budget) >= k + 1,
        used + blen(seq![cs[k]]) > budget ==> chars_within(cs, budget) == k,
    decreases k,
{
    assert(cs.len() > 0);
    if k == 0 {
        assert(cs.take(0) =~= Seq::<char>::empty());
    } else {
        let rest = cs.drop_first();
        assert(cs.take(k) =~= seq![cs[0]] + rest.take(k - 1));
        crate::source_map::lemma_blen_concat(seq![cs[0]], rest.take(k - 1));
        assert(rest[k - 1] == cs[k]);
        lemma_chars_within_step(rest, k - 1, used - blen(seq![cs[0]]), budget - blen(seq![cs[0]]));
    }
}

/// The line breaks and the last line start of a text one character
/// longer.
proof fn lemma_lines_push(s: Seq<char>, c: char)
    ensures
        line_breaks(s.push(c)) == line_breaks(s) + if c == '\n' {
            1nat
        } else {
            0nat
        },
        last_line_start(s.push(c)) == if c == '\n' {
            (s.len() + 1) as nat
        } else {
            last_line_start(s)
        },
{
    assert(s.push(c).drop_last() =~= s);
}

/// The 1-based line of the caret at byte `offset` of `text`, and the text
/// of that line before the caret; an offset inside a character counts
/// from that character's start.
pub fn cursor_line_prefix(text: &str, offset: usize) -> (r: (usize, String))
    requires
        text@.len() < usize::MAX,
    ensures
        ({
            let before = text@.take(chars_within(text@, offset as int) as int);
            &&& r.0 == line_breaks(before) + 1
            &&& r.1@ == before.subrange(last_line_start(before) as int, before.len() as int)
            &&& r.1@.len() <= text@.len()
        }),
{
    let chars = chars_of(text);
    let n = chars.len();
    let ghost cs = text@;
    let mut k: usize = 0;
    let mut used: usize = 0;
    let mut breaks: usize = 0;
    let mut line_start: usize = 0;
    let mut line = String::new();
    let mut stop = false;
    assert(cs.take(0) =~= Seq::<char>::empty());
    while k < n && !stop
        invariant
            chars@ == cs,
            n == cs.len(),
            n < usize::MAX,
            0 <= k <= n,
            used == blen(cs.take(k as int)),
            used <= offset,
            chars_within(cs, offset as int) >= k,
            stop ==> chars_within(cs, offset as int) == k,
            breaks == line_breaks(cs.take(k as int)),
            breaks <= k,
            line_start == last_line_start(cs.take(k as int)),
            line_start <= k,
            line@ == cs.subrange(line_start as int, k as int),
        decreases (n - k) * 2 + if stop { 0int } else { 1int },
    {
        let c = chars[k];
        let w = char_width(c);
        proof {
            lemma_chars_within_step(cs, k as int, used as int, offset as int);
        }
        if w > offset - used {
            stop = true;
        } else {
            proof {
                assert(cs.take(k + 1) =~= cs.take(k as int) + seq![c]);
                crate::source_map::lemma_blen_concat(cs.take(k as int), seq![c]);
                assert(cs.take(k + 1) =~= cs.take(k as int).push(c));
                lemma_lines_push(cs.take(k as int), c);
            }
            used = used + w;
            if c == '\n' {
                breaks = breaks + 1;
                line_start = k + 1;
                line = String::new();
            } else {
                push_char(&mut line, c);
            }
            k = k + 1;
            assert(line@ =~= cs.subrange(line_start as int, k as int));
        }
    }
    proof {
        if !stop {
            lemma_chars_within_le(cs, offset as int);
        }
        let m = chars_within(cs, offset as int);
        assert(m == k);
        assert(cs.take(k as int).subrange(line_start as int, k as int) =~= cs.subrange(line_start as int, k as int));
    }
    (breaks + 1, line)
}

/// The 1-based line and column of the caret at byte `offset` of `text`;
/// an offset inside a character counts from that character's start, and
/// the column counts grapheme clusters from the line start.
pub fn cursor_line_col(text: &str, offset: usize) -> (r: (usize, usize))
    requires
        text@.len() < usize::MAX,
    ensures
        (r.0 as nat, r.1 as nat) == line_col(text@, offset),
{
    let (line, prefix) = cursor_line_prefix(text, offset);
    proof {
        lemma_chars_within_le(text@, offset as int);
    }
    let columns = grapheme_count(prefix.as_str());
    (line, columns + 1)
}

/// No more whole characters than there are characters.
proof fn lemma_chars_within_le(cs: Seq<char>, budget: int)
    ensures
        chars_within(cs, budget) <= cs.len(),
    decreases cs.len(),
{
    if cs.len() > 0 {
        lemma_chars_within_le(cs.drop_first(), budget - blen(seq![cs[0]]));
    }
}

} // verus!
