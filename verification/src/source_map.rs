//! Offset maps between a block's rendered content and its Markdown
//! source, for blocks whose source adds a prefix to every line (quotes,
//! list items, indented code) and for fenced code blocks.
//!
//! Offsets are byte offsets. The content-to-source map gives, for each
//! offset where a content character starts (and for the end), the source
//! offset where it starts; the source-to-content map gives, for each
//! source offset, the content offset of the character it belongs to, with
//! prefix bytes belonging to the character that follows them.

use crate::projection::blen;
use crate::text::{chars_of, push_char};
use vstd::prelude::*;
use vstd::string::StringExecFns;

verus! {

/// Bytes of concatenated text are the bytes of the parts.
pub proof fn lemma_blen_concat(a: Seq<char>, b: Seq<char>)
    ensures
        blen(a + b) == blen(a) + blen(b),
    decreases a.len(),
{
    if a.len() > 0 {
        assert((a + b).drop_first() =~= a.drop_first() + b);
        lemma_blen_concat(a.drop_first(), b);
    } else {
        assert(a + b =~= b);
    }
}

/// A character takes one to four bytes.
pub proof fn lemma_char_bytes(c: char)
    ensures
        1 <= blen(seq![c]) <= 4,
{
    assert(seq![c].drop_first() =~= Seq::<char>::empty());
    assert(vstd::utf8::encode_utf8(Seq::<char>::empty()) =~= Seq::<u8>::empty());
    let e = vstd::utf8::encode_scalar(c as u32);
    assert(1 <= e.len() <= 4);
    assert(vstd::utf8::encode_utf8(seq![c]) == e + vstd::utf8::encode_utf8(seq![c].drop_first()));
}

/// The source of one content character: the character, and after a line
/// break the continuation prefix `q`.
pub open spec fn unit(c: char, q: Seq<char>) -> Seq<char> {
    if c == '\n' {
        seq![c] + q
    } else {
        seq![c]
    }
}

/// The source of the first `k` content characters, without the first
/// prefix.
pub open spec fn body(cs: Seq<char>, q: Seq<char>, k: nat) -> Seq<char>
    decreases k,
{
    if k == 0 {
        seq![]
    } else {
        body(cs, q, (k - 1) as nat) + unit(cs[k - 1], q)
    }
}

/// Where the source of content character `k` starts.
pub open spec fn source_start(cs: Seq<char>, p: Seq<char>, q: Seq<char>, k: nat) -> nat {
    blen(p + body(cs, q, k))
}

/// Where content character `k` starts.
pub open spec fn content_start(cs: Seq<char>, k: nat) -> nat {
    blen(cs.take(k as int))
}

/// One more character: its source follows the source so far, and its
/// content bytes follow the content so far.
pub proof fn lemma_step(cs: Seq<char>, p: Seq<char>, q: Seq<char>, k: nat)
    requires
        k < cs.len(),
    ensures
        source_start(cs, p, q, k + 1) == source_start(cs, p, q, k) + blen(seq![cs[k as int]]) + if cs[k as int]
            == '\n' {
            blen(q)
        } else {
            0
        },
        content_start(cs, k + 1) == content_start(cs, k) + blen(seq![cs[k as int]]),
        1 <= blen(seq![cs[k as int]]) <= 4,
{
    let c = cs[k as int];
    assert(body(cs, q, k + 1) == body(cs, q, k) + unit(c, q));
    assert(p + body(cs, q, k + 1) =~= (p + body(cs, q, k)) + unit(c, q));
    lemma_blen_concat(p + body(cs, q, k), unit(c, q));
    if c == '\n' {
        lemma_blen_concat(seq![c], q);
    }
    assert(cs.take((k + 1) as int) =~= cs.take(k as int) + seq![c]);
    lemma_blen_concat(cs.take(k as int), seq![c]);
    lemma_char_bytes(c);
}

/// Earlier characters start earlier, in the content and in the source.
pub proof fn lemma_starts_increase(cs: Seq<char>, p: Seq<char>, q: Seq<char>, i: nat, k: nat)
    requires
        i < k <= cs.len(),
    ensures
        content_start(cs, i) < content_start(cs, k),
        source_start(cs, p, q, i) + blen(seq![cs[i as int]]) <= source_start(cs, p, q, k),
        content_start(cs, i) + blen(seq![cs[i as int]]) <= content_start(cs, k),
    decreases k - i,
{
    lemma_step(cs, p, q, i);
    if i + 1 < k {
        lemma_starts_increase(cs, p, q, i + 1, k);
        lemma_step(cs, p, q, i + 1);
    }
}

/// The maps of content `cs` written with first prefix `p` and continuation
/// prefix `q`: each content character start (and the end) maps to where
/// its source starts, other content offsets to `0`; the first prefix maps
/// to the content start, a character's own source bytes to its start, the
/// continuation prefix after a line break to the next character's start,
/// and the source from the end of the last character on to the content
/// end.
pub open spec fn prefixed_maps(
    cs: Seq<char>,
    p: Seq<char>,
    q: Seq<char>,
    c2s: Seq<usize>,
    s2c: Seq<usize>,
) -> bool {
    let n = cs.len();
    let l = blen(cs);
    let s = source_start(cs, p, q, n);
    &&& c2s.len() == l + 1
    &&& s2c.len() >= s + 1
    &&& forall|k: int|
        0 <= k < n ==> c2s[#[trigger] content_start(cs, k as nat) as int] == source_start(cs, p, q, k as nat)
    &&& c2s[l as int] == s
    &&& forall|j: int|
        0 <= j < l && (forall|k: int| 0 <= k < n ==> j != #[trigger] content_start(cs, k as nat))
            ==> #[trigger] c2s[j] == 0
    &&& forall|j: int| 0 <= j < blen(p) ==> #[trigger] s2c[j] == 0
    &&& forall|k: int, j: int|
        #![trigger source_start(cs, p, q, k as nat), s2c[j]]
        0 <= k < n && source_start(cs, p, q, k as nat) <= j < source_start(cs, p, q, k as nat) + blen(
            seq![cs[k]],
        ) ==> s2c[j] == content_start(cs, k as nat)
    &&& forall|k: int, j: int|
        #![trigger source_start(cs, p, q, (k + 1) as nat), s2c[j]]
        0 <= k < n && source_start(cs, p, q, k as nat) + blen(seq![cs[k]]) <= j < source_start(
            cs,
            p,
            q,
            (k + 1) as nat,
        ) ==> s2c[j] == content_start(cs, (k + 1) as nat)
    &&& forall|j: int| s <= j < s2c.len() ==> #[trigger] s2c[j] == l
}

/// Starts do not decrease.
pub proof fn lemma_starts_monotone(cs: Seq<char>, p: Seq<char>, q: Seq<char>, i: nat, k: nat)
    requires
        i <= k <= cs.len(),
    ensures
        content_start(cs, i) <= content_start(cs, k),
        source_start(cs, p, q, i) <= source_start(cs, p, q, k),
{
    if i < k {
        lemma_starts_increase(cs, p, q, i, k);
    }
}

/// The maps after the first `k` content characters: the source text so
/// far, the content offset reached, and the entries written so far.
pub open spec fn mapped_upto(
    cs: Seq<char>,
    p: Seq<char>,
    q: Seq<char>,
    k: nat,
    full: Seq<char>,
    off: nat,
    c2s: Seq<usize>,
    s2c: Seq<usize>,
) -> bool {
    let l = blen(cs);
    &&& k <= cs.len()
    &&& full == p + body(cs, q, k)
    &&& off == content_start(cs, k)
    &&& c2s.len() == l + 1
    &&& forall|i: int|
        0 <= i < k ==> c2s[#[trigger] content_start(cs, i as nat) as int] == source_start(cs, p, q, i as nat)
    &&& forall|j: int| off <= j <= l ==> #[trigger] c2s[j] == 0
    &&& forall|j: int|
        0 <= j < off && (forall|i: int| 0 <= i < k ==> j != #[trigger] content_start(cs, i as nat))
            ==> #[trigger] c2s[j] == 0
    &&& s2c.len() == source_start(cs, p, q, k) + 1
    &&& forall|j: int| 0 <= j < blen(p) ==> #[trigger] s2c[j] == 0
    &&& forall|i: int, j: int|
        #![trigger source_start(cs, p, q, i as nat), s2c[j]]
        0 <= i < k && source_start(cs, p, q, i as nat) <= j < source_start(cs, p, q, i as nat) + blen(
            seq![cs[i]],
        ) ==> s2c[j] == content_start(cs, i as nat)
    &&& forall|i: int, j: int|
        #![trigger source_start(cs, p, q, (i + 1) as nat), s2c[j]]
        0 <= i < k && source_start(cs, p, q, i as nat) + blen(seq![cs[i]]) <= j < source_start(
            cs,
            p,
            q,
            (i + 1) as nat,
        ) ==> s2c[j] == content_start(cs, (i + 1) as nat)
}

/// Appends `n` copies of `v`.
fn push_repeat(v: &mut Vec<usize>, value: usize, n: usize)
    ensures
        final(v)@ == old(v)@ + Seq::new(n as nat, |i: int| value),
{
    let mut k: usize = 0;
    while k < n
        invariant
            0 <= k <= n,
            v@ == old(v)@ + Seq::new(k as nat, |i: int| value),
        decreases n - k,
    {
        v.push(value);
        k = k + 1;
        assert(v@ =~= old(v)@ + Seq::new(k as nat, |i: int| value));
    }
}

/// The content so far is no longer than its source after the first
/// prefix.
pub proof fn lemma_content_within_source(cs: Seq<char>, p: Seq<char>, q: Seq<char>, k: nat)
    requires
        k <= cs.len(),
    ensures
        content_start(cs, k) + blen(p) <= source_start(cs, p, q, k),
    decreases k,
{
    if k == 0 {
        assert(body(cs, q, 0) =~= Seq::<char>::empty());
        assert(p + body(cs, q, 0) =~= p);
        assert(cs.take(0) =~= Seq::<char>::empty());
    } else {
        lemma_content_within_source(cs, p, q, (k - 1) as nat);
        lemma_step(cs, p, q, (k - 1) as nat);
    }
}

/// The whole content is its own prefix.
pub proof fn lemma_content_end(cs: Seq<char>)
    ensures
        content_start(cs, cs.len()) == blen(cs),
{
    assert(cs.take(cs.len() as int) =~= cs);
}

/// Writes the source of content character `k` (`c`) after `full`, and its
/// map entries.
fn map_one_char(
    full: &mut String,
    c: char,
    q: &str,
    off: usize,
    c2s: &mut Vec<usize>,
    s2c: &mut Vec<usize>,
    Ghost(cs): Ghost<Seq<char>>,
    Ghost(p): Ghost<Seq<char>>,
    Ghost(k): Ghost<nat>,
) -> (next: usize)
    requires
        k < cs.len(),
        c == cs[k as int],
        mapped_upto(cs, p, q@, k, old(full)@, off as nat, old(c2s)@, old(s2c)@),
        source_start(cs, p, q@, cs.len()) + 1 < usize::MAX,
    ensures
        mapped_upto(cs, p, q@, k + 1, final(full)@, next as nat, final(c2s)@, final(s2c)@),
{
    let ghost q_view = q@;
    let ghost old_c2s = c2s@;
    let ghost old_s2c = s2c@;
    proof {
        lemma_step(cs, p, q_view, k);
        lemma_starts_monotone(cs, p, q_view, k + 1, cs.len());
        lemma_starts_monotone(cs, p, q_view, 0, k);
        lemma_starts_monotone(cs, p, q_view, k + 1, cs.len());
        lemma_content_end(cs);
        lemma_content_within_source(cs, p, q_view, cs.len());
        assert(body(cs, q_view, 0) =~= Seq::<char>::empty());
        assert(p + body(cs, q_view, 0) =~= p);
    }
    let ghost w = blen(seq![c]);
    let start = full.as_str().len();
    let ghost before = full@;
    push_char(full, c);
    proof {
        lemma_blen_concat(before, seq![c]);
        assert(before.push(c) =~= before + seq![c]);
    }
    let end = full.as_str().len();
    let width = end - start;
    c2s.set(off, start);
    s2c.set(start, off);
    push_repeat(s2c, off, width);
    let next = off + width;
    if c == '\n' {
        let ps = full.as_str().len();
        let ghost mid = full@;
        full.append(q);
        proof {
            lemma_blen_concat(mid, q_view);
        }
        let pe = full.as_str().len();
        s2c.set(ps, next);
        push_repeat(s2c, next, pe - ps);
        assert(full@ =~= p + body(cs, q_view, k + 1));
    } else {
        assert(full@ =~= p + body(cs, q_view, k + 1));
    }
    proof {
        assert forall|i: int| 0 <= i < k + 1 implies c2s@[#[trigger] content_start(cs, i as nat) as int]
            == source_start(cs, p, q_view, i as nat) by {
            if i < k {
                lemma_starts_increase(cs, p, q_view, i as nat, k);
            }
        }
        assert forall|j: int|
            0 <= j < next && (forall|i: int| 0 <= i < k + 1 ==> j != #[trigger] content_start(cs, i as nat))
                implies #[trigger] c2s@[j] == 0 by {
            if j >= off {
                assert(j != content_start(cs, k));
            } else {
                assert(forall|i: int| 0 <= i < k ==> j != #[trigger] content_start(cs, i as nat));
            }
        }
        assert forall|i: int, j: int|
            #![trigger source_start(cs, p, q_view, i as nat), s2c@[j]]
            0 <= i < k + 1 && source_start(cs, p, q_view, i as nat) <= j < source_start(cs, p, q_view, i as nat)
                + blen(seq![cs[i]]) implies s2c@[j] == content_start(cs, i as nat) by {
            if i < k {
                lemma_starts_increase(cs, p, q_view, i as nat, k);
                assert(old_s2c[j] == content_start(cs, i as nat));
            }
        }
        assert forall|i: int, j: int|
            #![trigger source_start(cs, p, q_view, (i + 1) as nat), s2c@[j]]
            0 <= i < k + 1 && source_start(cs, p, q_view, i as nat) + blen(seq![cs[i]]) <= j < source_start(
                cs,
                p,
                q_view,
                (i + 1) as nat,
            ) implies s2c@[j] == content_start(cs, (i + 1) as nat) by {
            if i < k {
                lemma_starts_monotone(cs, p, q_view, (i + 1) as nat, k);
                assert(old_s2c[j] == content_start(cs, (i + 1) as nat));
            }
        }
    }
    next
}

/// A vector of `n` zeros.
fn zeros(n: usize) -> (v: Vec<usize>)
    ensures
        v@ == Seq::new(n as nat, |i: int| 0usize),
{
    let mut v: Vec<usize> = Vec::new();
    push_repeat(&mut v, 0, n);
    assert(v@ =~= Seq::new(n as nat, |i: int| 0usize));
    v
}

/// Writes `content` after `first_prefix`, with `continuation_prefix` after
/// every line break, and returns the source text with its
/// content-to-source and source-to-content maps.
pub fn build_prefixed_content_mapping(content: &str, first_prefix: &str, continuation_prefix: &str) -> (r: (
    String,
    Vec<usize>,
    Vec<usize>,
))
    requires
        source_start(content@, first_prefix@, continuation_prefix@, content@.len()) + 1 < usize::MAX,
    ensures
        r.0@ == first_prefix@ + body(content@, continuation_prefix@, content@.len()),
        prefixed_maps(content@, first_prefix@, continuation_prefix@, r.1@, r.2@),
        r.2@.len() == source_start(content@, first_prefix@, continuation_prefix@, content@.len()) + 1,
{
    let ghost cs = content@;
    let ghost p = first_prefix@;
    let ghost q = continuation_prefix@;
    let chars = chars_of(content);
    proof {
        lemma_content_within_source(cs, p, q, cs.len());
        lemma_content_end(cs);
        assert(body(cs, q, 0) =~= Seq::<char>::empty());
        assert(p + body(cs, q, 0) =~= p);
        assert(cs.take(0) =~= Seq::<char>::empty());
    }
    let l = content.len();
    let mut full = String::from_str(first_prefix);
    let mut c2s = zeros(l + 1);
    let mut s2c = zeros(full.as_str().len() + 1);
    let mut off: usize = 0;
    let mut k: usize = 0;
    while k < chars.len()
        invariant
            chars@ == cs,
            cs == content@,
            q == continuation_prefix@,
            0 <= k <= cs.len(),
            l == blen(cs),
            source_start(cs, p, q, cs.len()) + 1 < usize::MAX,
            mapped_upto(cs, p, q, k as nat, full@, off as nat, c2s@, s2c@),
        decreases cs.len() - k,
    {
        off = map_one_char(
            &mut full,
            chars[k],
            continuation_prefix,
            off,
            &mut c2s,
            &mut s2c,
            Ghost(cs),
            Ghost(p),
            Ghost(k as nat),
        );
        k = k + 1;
    }
    let total = full.as_str().len();
    proof {
        lemma_blen_concat(p, body(cs, q, cs.len()));
    }
    c2s.set(l, total);
    s2c.set(total, l);
    proof {
        let n = cs.len();
        assert forall|i: int| 0 <= i < n implies c2s@[#[trigger] content_start(cs, i as nat) as int]
            == source_start(cs, p, q, i as nat) by {
            lemma_starts_increase(cs, p, q, i as nat, n);
        }
        assert forall|i: int, j: int|
            #![trigger source_start(cs, p, q, i as nat), s2c@[j]]
            0 <= i < n && source_start(cs, p, q, i as nat) <= j < source_start(cs, p, q, i as nat)
                + blen(seq![cs[i]]) implies s2c@[j] == content_start(cs, i as nat) by {
            lemma_starts_increase(cs, p, q, i as nat, n);
        }
        assert forall|i: int, j: int|
            #![trigger source_start(cs, p, q, (i + 1) as nat), s2c@[j]]
            0 <= i < n && source_start(cs, p, q, i as nat) + blen(seq![cs[i]]) <= j < source_start(
                cs,
                p,
                q,
                (i + 1) as nat,
            ) implies s2c@[j] == content_start(cs, (i + 1) as nat) by {
            lemma_starts_monotone(cs, p, q, (i + 1) as nat, n);
        }
    }
    (full, c2s, s2c)
}

/// The source of a fenced code block: the fence line (`fence`, then the
/// language, if any), the content with `indentation` before every line,
/// a line break and the closing `fence`; with its maps. The fence is
/// chosen by the caller, longer than any backtick run in the content.
pub fn build_code_block_content_mapping(
    content: &str,
    indentation: &str,
    language: Option<&str>,
    fence: &str,
) -> (r: (String, Vec<usize>, Vec<usize>))
    requires
        source_start(
            content@,
            fence@ + match language {
                Some(l) => l@,
                None => Seq::<char>::empty(),
            } + "\n"@ + indentation@,
            indentation@,
            content@.len(),
        ) + blen(fence@) + 2 < usize::MAX,
    ensures
        ({
            let p = fence@ + match language {
                Some(l) => l@,
                None => Seq::<char>::empty(),
            } + "\n"@ + indentation@;
            &&& r.0@ == p + body(content@, indentation@, content@.len()) + "\n"@ + fence@
            &&& prefixed_maps(content@, p, indentation@, r.1@, r.2@)
            &&& r.2@.len() == blen(r.0@) + 1
        }),
{
    proof {
        reveal_strlit("\n");
    }
    let ghost p = fence@ + match language {
        Some(l) => l@,
        None => Seq::<char>::empty(),
    } + "\n"@ + indentation@;
    let mut head = String::from_str(fence);
    match language {
        Some(l) => {
            head.append(l);
        },
        None => {},
    }
    head.append("\n");
    head.append(indentation);
    assert(head@ =~= p);
    let (mut full, c2s, mut s2c) = build_prefixed_content_mapping(content, head.as_str(), indentation);
    let l = content.len();
    proof {
        lemma_content_within_source(content@, p, indentation@, content@.len());
        lemma_content_end(content@);
    }
    let ghost full_before = full@;
    proof {
        lemma_blen_concat(p, body(content@, indentation@, content@.len()));
        lemma_blen_concat(full_before, "\n"@);
        lemma_blen_concat(full_before + "\n"@, fence@);
        assert(vstd::utf8::is_ascii_chars("\n"@));
        vstd::utf8::is_ascii_chars_encode_utf8("\n"@);
    }
    let before = full.as_str().len();
    full.append("\n");
    full.append(fence);
    assert(full@ =~= full_before + "\n"@ + fence@);
    let after = full.as_str().len();
    let ghost s2c_before = s2c@;
    push_repeat(&mut s2c, l, after - before);
    proof {
        let cs = content@;
        let q = indentation@;
        let n = cs.len();
        assert forall|j: int| 0 <= j < blen(p) implies #[trigger] s2c@[j] == 0 by {
            assert(s2c_before[j] == 0);
        }
        assert forall|i: int, j: int|
            #![trigger source_start(cs, p, q, i as nat), s2c@[j]]
            0 <= i < n && source_start(cs, p, q, i as nat) <= j < source_start(cs, p, q, i as nat)
                + blen(seq![cs[i]]) implies s2c@[j] == content_start(cs, i as nat) by {
            lemma_starts_increase(cs, p, q, i as nat, n);
            assert(s2c_before[j] == content_start(cs, i as nat));
        }
        assert forall|i: int, j: int|
            #![trigger source_start(cs, p, q, (i + 1) as nat), s2c@[j]]
            0 <= i < n && source_start(cs, p, q, i as nat) + blen(seq![cs[i]]) <= j < source_start(
                cs,
                p,
                q,
                (i + 1) as nat,
            ) implies s2c@[j] == content_start(cs, (i + 1) as nat) by {
            lemma_starts_monotone(cs, p, q, (i + 1) as nat, n);
            assert(s2c_before[j] == content_start(cs, (i + 1) as nat));
        }
    }
    (full, c2s, s2c)
}

/// Round trip: every content character start, and the content end, maps
/// to a source offset that maps back to it.
pub proof fn lemma_prefixed_round_trip(
    cs: Seq<char>,
    p: Seq<char>,
    q: Seq<char>,
    c2s: Seq<usize>,
    s2c: Seq<usize>,
)
    requires
        prefixed_maps(cs, p, q, c2s, s2c),
    ensures
        forall|k: int|
            0 <= k < cs.len() ==> s2c[c2s[#[trigger] content_start(cs, k as nat) as int] as int]
                == content_start(cs, k as nat),
        s2c[c2s[blen(cs) as int] as int] == blen(cs),
{
    assert forall|k: int| 0 <= k < cs.len() implies s2c[c2s[#[trigger] content_start(
        cs,
        k as nat,
    ) as int] as int] == content_start(cs, k as nat) by {
        lemma_char_bytes(cs[k]);
        assert(c2s[content_start(cs, k as nat) as int] == source_start(cs, p, q, k as nat));
        let j = source_start(cs, p, q, k as nat) as int;
        assert(source_start(cs, p, q, k as nat) <= j < source_start(cs, p, q, k as nat) + blen(seq![cs[k]]));
    }
}

} // verus!
