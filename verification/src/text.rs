//! Text helpers of the HTML export and the update dialogs: HTML escaping,
//! placeholder replacement, and the fixed parts of the exported CSS.

use vstd::prelude::*;
use vstd::std_specs::iter::IteratorSpec;
use vstd::string::StringExecFns;

verus! {

broadcast use vstd::string::group_string_axioms;

/// `String::push`: appends the character `c` to the end of `s`.
#[verifier::external_body]
pub(crate) fn push_char(s: &mut String, c: char)
    ensures
        final(s)@ == old(s)@.push(c),
{
    s.push(c);
}

/// The characters of `s`, in order.
pub(crate) fn chars_of(s: &str) -> (v: Vec<char>)
    ensures
        v@ == s@,
{
    let mut it = s.chars();
    let mut v: Vec<char> = Vec::new();
    loop
        invariant
            v@ + it.remaining() == s@,
            it.decrease() is Some,
        decreases it.decrease()->0,
    {
        match it.next() {
            Some(c) => {
                v.push(c);
            },
            None => {
                assert(v@ + it.remaining() == v@);
                return v;
            },
        }
    }
}

/// How one character is written in HTML text: the five markup characters
/// as entities, any other as itself.
pub open spec fn escaped_char(c: char) -> Seq<char> {
    if c == '&' {
        "&amp;"@
    } else if c == '<' {
        "&lt;"@
    } else if c == '>' {
        "&gt;"@
    } else if c == '"' {
        "&quot;"@
    } else if c == '\'' {
        "&#39;"@
    } else {
        seq![c]
    }
}

/// `s` written as HTML text, character by character.
pub open spec fn escaped(s: Seq<char>) -> Seq<char>
    decreases s.len(),
{
    if s.len() == 0 {
        seq![]
    } else {
        escaped(s.drop_last()) + escaped_char(s.last())
    }
}

/// Escapes `&`, `<`, `>`, `"` and `'` for HTML text and attributes.
pub fn escape_html(input: &str) -> (escaped_text: String)
    ensures
        escaped_text@ == escaped(input@),
{
    let chars = chars_of(input);
    let mut out = String::new();
    let mut i: usize = 0;
    while i < chars.len()
        invariant
            0 <= i <= chars@.len(),
            chars@ == input@,
            out@ == escaped(input@.subrange(0, i as int)),
        decreases chars@.len() - i,
    {
        let c = chars[i];
        proof {
            reveal_strlit("&amp;");
            reveal_strlit("&lt;");
            reveal_strlit("&gt;");
            reveal_strlit("&quot;");
            reveal_strlit("&#39;");
            assert(input@.subrange(0, i + 1).drop_last() =~= input@.subrange(0, i as int));
        }
        if c == '&' {
            out.append("&amp;");
        } else if c == '<' {
            out.append("&lt;");
        } else if c == '>' {
            out.append("&gt;");
        } else if c == '"' {
            out.append("&quot;");
        } else if c == '\'' {
            out.append("&#39;");
        } else {
            push_char(&mut out, c);
        }
        i = i + 1;
    }
    assert(input@.subrange(0, chars@.len() as int) =~= input@);
    out
}

/// `s` with every occurrence of `pat` replaced by `rep`, scanning from the
/// front and resuming after each replaced occurrence.
pub open spec fn replaced(s: Seq<char>, pat: Seq<char>, rep: Seq<char>) -> Seq<char>
    recommends
        pat.len() > 0,
    decreases s.len(),
{
    if pat.len() == 0 || s.len() < pat.len() {
        s
    } else if s.subrange(0, pat.len() as int) == pat {
        rep + replaced(s.subrange(pat.len() as int, s.len() as int), pat, rep)
    } else {
        seq![s[0]] + replaced(s.subrange(1, s.len() as int), pat, rep)
    }
}

/// Whether `pat` occurs in `s` at position `i`.
fn matches_at(s: &Vec<char>, pat: &Vec<char>, i: usize) -> (b: bool)
    requires
        i + pat@.len() <= s@.len(),
    ensures
        b == (s@.subrange(i as int, i + pat@.len()) == pat@),
{
    let m = pat.len();
    let n = s.len();
    let mut k: usize = 0;
    while k < m
        invariant
            n == s@.len(),
            m == pat@.len(),
            i + m <= s@.len(),
            0 <= k <= m,
            forall|j: int| 0 <= j < k ==> s@[i + j] == pat@[j],
        decreases m - k,
    {
        if s[i + k] != pat[k] {
            assert(s@.subrange(i as int, i + pat@.len())[k as int] != pat@[k as int]);
            return false;
        }
        k = k + 1;
    }
    assert(s@.subrange(i as int, i + pat@.len()) =~= pat@);
    true
}

/// Replaces every occurrence of the non-empty `pat` in `s` by `rep`, from
/// the front, as `str::replace` does.
pub fn replace_all(s: &str, pat: &str, rep: &str) -> (r: String)
    requires
        pat@.len() > 0,
    ensures
        r@ == replaced(s@, pat@, rep@),
{
    let chars = chars_of(s);
    let pattern = chars_of(pat);
    let n = chars.len();
    let m = pattern.len();
    let mut out = String::new();
    let mut i: usize = 0;
    assert(s@.subrange(0, n as int) =~= s@);
    while i < n
        invariant
            chars@ == s@,
            pattern@ == pat@,
            n == s@.len(),
            m == pat@.len(),
            m > 0,
            0 <= i <= n,
            out@ + replaced(s@.subrange(i as int, n as int), pat@, rep@) == replaced(s@, pat@, rep@),
        decreases n - i,
    {
        let ghost rest = s@.subrange(i as int, n as int);
        if m <= n - i && matches_at(&chars, &pattern, i) {
            assert(rest.subrange(0, m as int) =~= s@.subrange(i as int, i + m));
            assert(rest.subrange(m as int, rest.len() as int) =~= s@.subrange(i + m, n as int));
            out.append(rep);
            i = i + m;
        } else if m > n - i {
            assert(replaced(rest, pat@, rep@) == rest);
            let ghost before = out@;
            let mut k = i;
            while k < n
                invariant
                    chars@ == s@,
                    n == s@.len(),
                    i <= k <= n,
                    out@ == before + s@.subrange(i as int, k as int),
                decreases n - k,
            {
                push_char(&mut out, chars[k]);
                assert(s@.subrange(i as int, k + 1) =~= s@.subrange(i as int, k as int).push(s@[k as int]));
                k = k + 1;
            }
            assert(s@.subrange(n as int, n as int) =~= Seq::<char>::empty());
            return out;
        } else {
            let ghost old_out = out@;
            push_char(&mut out, chars[i]);
            proof {
                assert(rest.subrange(0, m as int) =~= s@.subrange(i as int, i + m));
                assert(rest.subrange(1, rest.len() as int) =~= s@.subrange(i + 1, n as int));
                assert(replaced(rest, pat@, rep@) == seq![rest[0]] + replaced(
                    s@.subrange(i + 1, n as int),
                    pat@,
                    rep@,
                ));
                assert(out@ + replaced(s@.subrange(i + 1, n as int), pat@, rep@) =~= old_out + (seq![
                    rest[0],
                ] + replaced(s@.subrange(i + 1, n as int), pat@, rep@)));
            }
            i = i + 1;
        }
    }
    assert(s@.subrange(n as int, n as int) =~= Seq::<char>::empty());
    out
}

/// Fills an update message: `{current}` becomes the running version and
/// `{latest}` the newest release.
pub fn format_update_message(template: &str, current_version: &str, latest_version: &str) -> (message: String)
    ensures
        message@ == replaced(replaced(template@, "{current}"@, current_version@), "{latest}"@, latest_version@),
{
    proof {
        reveal_strlit("{current}");
        reveal_strlit("{latest}");
    }
    let with_current = replace_all(template, "{current}", current_version);
    replace_all(with_current.as_str(), "{latest}", latest_version)
}

/// Fills an update failure message: `{error}` becomes the error's text.
pub fn format_update_failed_message(template: &str, detail: &str) -> (message: String)
    ensures
        message@ == replaced(template@, "{error}"@, detail@),
{
    proof {
        reveal_strlit("{error}");
    }
    replace_all(template, "{error}", detail)
}

/// The window title of a document named `base_title`: empty for an
/// unnamed document; the dirty marker and a space before the name while it
/// has unsaved changes (when there is a marker); else the name.
pub fn window_title_text(base_title: &str, is_dirty: bool, dirty_marker: &str) -> (title: String)
    ensures
        title@ == if base_title@.len() == 0 {
            Seq::<char>::empty()
        } else if is_dirty && dirty_marker@.len() > 0 {
            dirty_marker@ + " "@ + base_title@
        } else {
            base_title@
        },
{
    proof {
        reveal_strlit(" ");
    }
    if base_title.is_empty() {
        String::new()
    } else if is_dirty && !dirty_marker.is_empty() {
        let mut title = String::from_str(dirty_marker);
        title.append(" ");
        title.append(base_title);
        title
    } else {
        String::from_str(base_title)
    }
}

/// Escaped text holds no `<`, `>`, `"` or `'`: markup characters never
/// survive escaping.
pub proof fn lemma_escaped_has_no_markup(s: Seq<char>)
    ensures
        !escaped(s).contains('<'),
        !escaped(s).contains('>'),
        !escaped(s).contains('"'),
        !escaped(s).contains('\''),
    decreases s.len(),
{
    reveal_strlit("&amp;");
    reveal_strlit("&lt;");
    reveal_strlit("&gt;");
    reveal_strlit("&quot;");
    reveal_strlit("&#39;");
    if s.len() > 0 {
        lemma_escaped_has_no_markup(s.drop_last());
        let a = escaped(s.drop_last());
        let b = escaped_char(s.last());
        assert(escaped(s) == a + b);
        assert forall|c: char| c == '<' || c == '>' || c == '"' || c == '\'' implies !(a + b).contains(c) by {
            if (a + b).contains(c) {
                let i = choose|i: int| 0 <= i < (a + b).len() && (a + b)[i] == c;
                if i < a.len() {
                    assert(a[i] == c);
                } else {
                    assert(b[i - a.len()] == c);
                }
            }
        }
    }
}

/// Escaping text piece by piece is escaping it whole.
pub proof fn lemma_escaped_concat(a: Seq<char>, b: Seq<char>)
    ensures
        escaped(a + b) == escaped(a) + escaped(b),
    decreases b.len(),
{
    if b.len() == 0 {
        assert(a + b =~= a);
        assert(escaped(a) + escaped(b) =~= escaped(a));
    } else {
        lemma_escaped_concat(a, b.drop_last());
        assert((a + b).drop_last() =~= a + b.drop_last());
        assert((a + b).last() == b.last());
        assert(escaped(a) + escaped(b.drop_last()) + escaped_char(b.last()) =~= escaped(a) + (escaped(
            b.drop_last(),
        ) + escaped_char(b.last())));
    }
}

/// Whether `c` is one of the characters that escaping rewrites.
pub open spec fn is_markup_char(c: char) -> bool {
    c == '&' || c == '<' || c == '>' || c == '"' || c == '\''
}

/// Text without `&`, `<`, `>`, `"` and `'` escapes to itself.
pub proof fn lemma_escaped_plain(s: Seq<char>)
    requires
        forall|i: int| 0 <= i < s.len() ==> !is_markup_char(#[trigger] s[i]),
    ensures
        escaped(s) == s,
    decreases s.len(),
{
    if s.len() > 0 {
        lemma_escaped_plain(s.drop_last());
        assert(!is_markup_char(s[s.len() - 1]));
        assert(s.drop_last() + seq![s.last()] =~= s);
    }
}

/// HTML text read back: each of the entities `&amp;`, `&lt;`, `&gt;`,
/// `&quot;` and `&#39;` becomes its character, from left to right.
pub open spec fn unescaped(t: Seq<char>) -> Seq<char>
    decreases t.len(),
{
    if t.len() == 0 {
        Seq::empty()
    } else if t.len() >= 5 && t.subrange(0, 5) == "&amp;"@ {
        seq!['&'] + unescaped(t.subrange(5, t.len() as int))
    } else if t.len() >= 4 && t.subrange(0, 4) == "&lt;"@ {
        seq!['<'] + unescaped(t.subrange(4, t.len() as int))
    } else if t.len() >= 4 && t.subrange(0, 4) == "&gt;"@ {
        seq!['>'] + unescaped(t.subrange(4, t.len() as int))
    } else if t.len() >= 6 && t.subrange(0, 6) == "&quot;"@ {
        seq!['"'] + unescaped(t.subrange(6, t.len() as int))
    } else if t.len() >= 5 && t.subrange(0, 5) == "&#39;"@ {
        seq!['\''] + unescaped(t.subrange(5, t.len() as int))
    } else {
        seq![t[0]] + unescaped(t.subrange(1, t.len() as int))
    }
}

/// Reading back one escaped character and what follows.
proof fn lemma_unescaped_step(c: char, r: Seq<char>)
    ensures
        unescaped(escaped_char(c) + r) == seq![c] + unescaped(r),
{
    reveal_strlit("&amp;");
    reveal_strlit("&lt;");
    reveal_strlit("&gt;");
    reveal_strlit("&quot;");
    reveal_strlit("&#39;");
    let e = escaped_char(c);
    let t = e + r;
    let k = e.len() as int;
    assert(t.subrange(0, k) =~= e);
    assert(t.subrange(k, t.len() as int) =~= r);
    if c == '&' {
    } else if c == '<' {
        assert(!(t.len() >= 5 && t.subrange(0, 5) == "&amp;"@)) by {
            if t.len() >= 5 {
                assert(t.subrange(0, 5)[1] == t[1]);
                assert(t[1] == 'l');
            }
        }
    } else if c == '>' {
        assert(!(t.len() >= 5 && t.subrange(0, 5) == "&amp;"@)) by {
            if t.len() >= 5 {
                assert(t.subrange(0, 5)[1] == t[1]);
                assert(t[1] == 'g');
            }
        }
        assert(!(t.len() >= 4 && t.subrange(0, 4) == "&lt;"@)) by {
            if t.len() >= 4 {
                assert(t.subrange(0, 4)[1] == t[1]);
                assert(t[1] == 'g');
            }
        }
    } else if c == '"' {
        assert(!(t.len() >= 5 && t.subrange(0, 5) == "&amp;"@)) by {
            if t.len() >= 5 {
                assert(t.subrange(0, 5)[1] == t[1]);
                assert(t[1] == 'q');
            }
        }
        assert(!(t.len() >= 4 && t.subrange(0, 4) == "&lt;"@)) by {
            if t.len() >= 4 {
                assert(t.subrange(0, 4)[1] == t[1]);
                assert(t[1] == 'q');
            }
        }
        assert(!(t.len() >= 4 && t.subrange(0, 4) == "&gt;"@)) by {
            if t.len() >= 4 {
                assert(t.subrange(0, 4)[1] == t[1]);
                assert(t[1] == 'q');
            }
        }
    } else if c == '\'' {
        assert(!(t.len() >= 5 && t.subrange(0, 5) == "&amp;"@)) by {
            if t.len() >= 5 {
                assert(t.subrange(0, 5)[1] == t[1]);
                assert(t[1] == '#');
            }
        }
        assert(!(t.len() >= 4 && t.subrange(0, 4) == "&lt;"@)) by {
            if t.len() >= 4 {
                assert(t.subrange(0, 4)[1] == t[1]);
                assert(t[1] == '#');
            }
        }
        assert(!(t.len() >= 4 && t.subrange(0, 4) == "&gt;"@)) by {
            if t.len() >= 4 {
                assert(t.subrange(0, 4)[1] == t[1]);
                assert(t[1] == '#');
            }
        }
        assert(!(t.len() >= 6 && t.subrange(0, 6) == "&quot;"@)) by {
            if t.len() >= 6 {
                assert(t.subrange(0, 6)[1] == t[1]);
                assert(t[1] == '#');
            }
        }
    } else {
        assert(t[0] == c);
        if t.len() >= 5 {
            assert(t.subrange(0, 5)[0] == c);
        }
        if t.len() >= 4 {
            assert(t.subrange(0, 4)[0] == c);
        }
        if t.len() >= 6 {
            assert(t.subrange(0, 6)[0] == c);
        }
    }
}

/// Escaping loses nothing: reading the escaped text back gives the text.
pub proof fn lemma_unescaped_escaped(s: Seq<char>)
    ensures
        unescaped(escaped(s)) == s,
    decreases s.len(),
{
    if s.len() > 0 {
        let rest = s.drop_first();
        lemma_unescaped_escaped(rest);
        assert(s =~= seq![s[0]] + rest);
        lemma_escaped_concat(seq![s[0]], rest);
        assert(seq![s[0]].drop_last() =~= Seq::<char>::empty());
        assert(seq![s[0]].last() == s[0]);
        assert(escaped(Seq::<char>::empty()) =~= Seq::<char>::empty());
        assert(escaped(seq![s[0]]) =~= escaped_char(s[0]));
        lemma_unescaped_step(s[0], escaped(rest));
    }
}

/// The character whose entity the `k`-th replacement of the decoding
/// turns back into it: `<`, `>`, `"`, `'`, then `&`.
pub open spec fn decoded_char(k: nat) -> char {
    if k == 1 {
        '<'
    } else if k == 2 {
        '>'
    } else if k == 3 {
        '"'
    } else if k == 4 {
        '\''
    } else {
        '&'
    }
}

/// Whether character `c` is written as itself after the first `k`
/// replacements of the decoding.
pub open spec fn decoded_by(k: nat, c: char) -> bool {
    !is_markup_char(c) || exists|j: nat| 1 <= j <= k && j <= 5 && decoded_char(j) == c
}

/// Character `c` after the first `k` replacements of the decoding.
pub open spec fn stage_char(k: nat, c: char) -> Seq<char> {
    if decoded_by(k, c) {
        seq![c]
    } else {
        escaped_char(c)
    }
}

/// Escaped `s` after the first `k` replacements of the decoding.
pub open spec fn staged(k: nat, s: Seq<char>) -> Seq<char>
    decreases s.len(),
{
    if s.len() == 0 {
        Seq::empty()
    } else {
        stage_char(k, s[0]) + staged(k, s.drop_first())
    }
}

/// Text with no occurrence of `pat` starting in its first `n` positions
/// keeps those positions through `replaced`.
proof fn lemma_replaced_skip(e: Seq<char>, t: Seq<char>, pat: Seq<char>, rep: Seq<char>)
    requires
        pat.len() > 0,
        forall|j: int|
            0 <= j < e.len() ==> !(j + pat.len() <= (e + t).len() && #[trigger] (e + t).subrange(
                j,
                j + pat.len(),
            ) == pat),
    ensures
        replaced(e + t, pat, rep) == e + replaced(t, pat, rep),
    decreases e.len(),
{
    if e.len() > 0 {
        let u = e + t;
        let e1 = e.drop_first();
        assert(u.subrange(1, u.len() as int) =~= e1 + t);
        assert forall|j: int|
            0 <= j < e1.len() implies !(j + pat.len() <= (e1 + t).len() && #[trigger] (e1 + t).subrange(
                j,
                j + pat.len(),
            ) == pat) by {
            if j + pat.len() <= (e1 + t).len() {
                assert((e1 + t).subrange(j, j + pat.len()) =~= u.subrange(j + 1, j + 1 + pat.len()));
                assert(!(j + 1 + pat.len() <= u.len() && (e + t).subrange(j + 1, j + 1 + pat.len()) == pat));
            }
        }
        lemma_replaced_skip(e1, t, pat, rep);
        let z: int = 0;
        if u.len() >= pat.len() {
            assert(!(z + pat.len() <= u.len() && u.subrange(z, z + pat.len()) == pat));
            assert(u.subrange(0, pat.len() as int) == u.subrange(z, z + pat.len()));
        }
        assert(seq![e[0]] + (e1 + replaced(t, pat, rep)) =~= e + replaced(t, pat, rep));
    } else {
        assert(e + t =~= t);
        assert(e + replaced(t, pat, rep) =~= replaced(t, pat, rep));
    }
}

/// The pattern of the `k`-th replacement of the decoding.
pub open spec fn decode_pat(k: nat) -> Seq<char> {
    escaped_char(decoded_char(k))
}

/// One replacement of the decoding turns the entities of its character,
/// and nothing else, back into the character.
proof fn lemma_decode_step(k: nat, s: Seq<char>)
    requires
        k < 5,
    ensures
        replaced(staged(k, s), decode_pat(k + 1), seq![decoded_char(k + 1)]) == staged(k + 1, s),
    decreases s.len(),
{
    reveal_strlit("&amp;");
    reveal_strlit("&lt;");
    reveal_strlit("&gt;");
    reveal_strlit("&quot;");
    reveal_strlit("&#39;");
    let pat = decode_pat(k + 1);
    let rep = seq![decoded_char(k + 1)];
    if s.len() > 0 {
        let c = s[0];
        let rest = s.drop_first();
        lemma_decode_step(k, rest);
        let e = stage_char(k, c);
        let t = staged(k, rest);
        assert(staged(k, s) == e + t);
        assert(staged(k + 1, s) == stage_char(k + 1, c) + staged(k + 1, rest));
        if c == decoded_char(k + 1) {
            assert(!decoded_by(k, c)) by {
                if exists|j: nat| 1 <= j <= k && j <= 5 && decoded_char(j) == c {
                    let j = choose|j: nat| 1 <= j <= k && j <= 5 && decoded_char(j) == c;
                    assert(decoded_char(j) != decoded_char(k + 1));
                }
            }
            assert(decoded_by(k + 1, c)) by {
                assert(decoded_char(k + 1) == c);
            }
            assert(e == pat);
            let u = e + t;
            assert(u.subrange(0, pat.len() as int) =~= pat);
            assert(u.subrange(pat.len() as int, u.len() as int) =~= t);
        } else {
            assert(decoded_by(k + 1, c) == decoded_by(k, c)) by {
                if decoded_by(k + 1, c) && is_markup_char(c) {
                    let j = choose|j: nat| 1 <= j <= k + 1 && j <= 5 && decoded_char(j) == c;
                    assert(j != k + 1);
                }
            }
            assert(stage_char(k + 1, c) == e);
            let u = e + t;
            assert forall|j: int|
                0 <= j < e.len() implies !(j + pat.len() <= u.len() && #[trigger] u.subrange(j, j + pat.len())
                == pat) by {
                if j + pat.len() <= u.len() && u.subrange(j, j + pat.len()) == pat {
                    assert(u.subrange(j, j + pat.len())[0] == u[j]);
                    assert(pat[0] == '&');
                    if j == 0 {
                        assert(e.len() >= 2);
                        assert(u.subrange(j, j + pat.len())[1] == u[1]);
                        assert(u[1] == e[1]);
                    } else {
                        assert(u[j] == e[j]);
                    }
                }
            }
            lemma_replaced_skip(e, t, pat, rep);
        }
    } else {
        assert(staged(k, s) =~= Seq::<char>::empty());
    }
}

/// Before any replacement, the staged text is the escaped text.
proof fn lemma_staged_zero(s: Seq<char>)
    ensures
        staged(0, s) == escaped(s),
    decreases s.len(),
{
    if s.len() > 0 {
        lemma_staged_zero(s.drop_first());
        assert(s =~= seq![s[0]] + s.drop_first());
        lemma_escaped_concat(seq![s[0]], s.drop_first());
        assert(seq![s[0]].drop_last() =~= Seq::<char>::empty());
        assert(seq![s[0]].last() == s[0]);
        assert(escaped(Seq::<char>::empty()) =~= Seq::<char>::empty());
        assert(!decoded_by(0, s[0]) ==> stage_char(0, s[0]) == escaped_char(s[0]));
        assert(decoded_by(0, s[0]) ==> !is_markup_char(s[0]));
    }
}

/// After all five replacements, the staged text is the text.
proof fn lemma_staged_five(s: Seq<char>)
    ensures
        staged(5, s) == s,
    decreases s.len(),
{
    if s.len() > 0 {
        lemma_staged_five(s.drop_first());
        let c = s[0];
        assert(decoded_by(5, c)) by {
            if c == '<' {
                assert(decoded_char(1) == c);
            } else if c == '>' {
                assert(decoded_char(2) == c);
            } else if c == '"' {
                assert(decoded_char(3) == c);
            } else if c == '\'' {
                assert(decoded_char(4) == c);
            } else if c == '&' {
                assert(decoded_char(5) == c);
            }
        }
        assert(seq![c] + s.drop_first() =~= s);
    }
}

/// Escaping round-trips through successive entity replacements: replacing
/// `&lt;`, `&gt;`, `&quot;`, `&#39;` and finally `&amp;` in escaped text
/// by `<`, `>`, `"`, `'` and `&` gives the text back.
pub proof fn lemma_escape_replacements_round_trip(s: Seq<char>)
    ensures
        replaced(
            replaced(
                replaced(replaced(replaced(escaped(s), "&lt;"@, "<"@), "&gt;"@, ">"@), "&quot;"@, "\""@),
                "&#39;"@,
                "'"@,
            ),
            "&amp;"@,
            "&"@,
        ) == s,
{
    reveal_strlit("&amp;");
    reveal_strlit("&lt;");
    reveal_strlit("&gt;");
    reveal_strlit("&quot;");
    reveal_strlit("&#39;");
    reveal_strlit("<");
    reveal_strlit(">");
    reveal_strlit("\"");
    reveal_strlit("'");
    reveal_strlit("&");
    lemma_staged_zero(s);
    lemma_decode_step(0, s);
    lemma_decode_step(1, s);
    lemma_decode_step(2, s);
    lemma_decode_step(3, s);
    lemma_decode_step(4, s);
    lemma_staged_five(s);
    assert("<"@ =~= seq![decoded_char(1)]);
    assert(">"@ =~= seq![decoded_char(2)]);
    assert("\""@ =~= seq![decoded_char(3)]);
    assert("'"@ =~= seq![decoded_char(4)]);
    assert("&"@ =~= seq![decoded_char(5)]);
}

/// Whether `pat` occurs in `s` at position `i`.
pub open spec fn occurs_at(s: Seq<char>, pat: Seq<char>, i: int) -> bool {
    0 <= i && i + pat.len() <= s.len() && s.subrange(i, i + pat.len()) == pat
}

/// Whether `pat` occurs in `s`.
pub open spec fn occurs(s: Seq<char>, pat: Seq<char>) -> bool {
    exists|i: int| occurs_at(s, pat, i)
}

/// Where the replaced text holds no copy of the pattern's first character
/// among its first `m` characters, those characters are the text's own.
proof fn lemma_replaced_prefix(x: Seq<char>, pat: Seq<char>, rep: Seq<char>, m: int)
    requires
        pat.len() > 0,
        rep.len() > 0,
        rep[0] == pat[0],
        0 <= m <= replaced(x, pat, rep).len(),
        forall|j: int| 0 <= j < m ==> replaced(x, pat, rep)[j] != pat[0],
    ensures
        m <= x.len(),
        x.subrange(0, m) == replaced(x, pat, rep).subrange(0, m),
    decreases x.len(),
{
    let r = replaced(x, pat, rep);
    if x.len() < pat.len() {
        assert(r == x);
    } else if x.subrange(0, pat.len() as int) == pat {
        if m > 0 {
            assert(r[0] == rep[0]);
        }
    } else if m > 0 {
        let x1 = x.subrange(1, x.len() as int);
        let r1 = replaced(x1, pat, rep);
        assert(r == seq![x[0]] + r1);
        assert forall|j: int| 0 <= j < m - 1 implies r1[j] != pat[0] by {
            assert(r[j + 1] == r1[j]);
        }
        lemma_replaced_prefix(x1, pat, rep, m - 1);
        assert(x.subrange(0, m) =~= seq![x[0]] + x1.subrange(0, m - 1));
        assert(r.subrange(0, m) =~= seq![x[0]] + r1.subrange(0, m - 1));
    }
}

/// Replacing every occurrence of `pat` by `rep` leaves no occurrence of
/// `pat`, when `pat`'s first character opens both texts and recurs in
/// neither, and `rep` differs from `pat` at position `d`.
pub proof fn lemma_replaced_leaves_none(s: Seq<char>, pat: Seq<char>, rep: Seq<char>, d: int)
    requires
        pat.len() > 0,
        forall|k: int| 1 <= k < pat.len() ==> #[trigger] pat[k] != pat[0],
        rep.len() > 0,
        rep[0] == pat[0],
        forall|k: int| 1 <= k < rep.len() ==> #[trigger] rep[k] != pat[0],
        0 <= d < rep.len(),
        d < pat.len(),
        rep[d] != pat[d],
    ensures
        !occurs(replaced(s, pat, rep), pat),
    decreases s.len(),
{
    let r = replaced(s, pat, rep);
    if s.len() < pat.len() {
        assert(r == s);
        assert forall|i: int| !occurs_at(r, pat, i) by {}
    } else if s.subrange(0, pat.len() as int) == pat {
        let rest = s.subrange(pat.len() as int, s.len() as int);
        lemma_replaced_leaves_none(rest, pat, rep, d);
        let r1 = replaced(rest, pat, rep);
        assert(r == rep + r1);
        assert forall|i: int| !occurs_at(r, pat, i) by {
            if occurs_at(r, pat, i) {
                if i == 0 {
                    assert(r.subrange(0, pat.len() as int)[d] == r[d]);
                    assert(r[d] == rep[d]);
                } else if i < rep.len() {
                    assert(r.subrange(i, i + pat.len())[0] == r[i]);
                    assert(r[i] == rep[i]);
                } else {
                    assert(r.subrange(i, i + pat.len()) =~= r1.subrange(i - rep.len(), i - rep.len() + pat.len()));
                    assert(occurs_at(r1, pat, i - rep.len()));
                }
            }
        }
    } else {
        let s1 = s.subrange(1, s.len() as int);
        lemma_replaced_leaves_none(s1, pat, rep, d);
        let r1 = replaced(s1, pat, rep);
        assert(r == seq![s[0]] + r1);
        assert forall|i: int| !occurs_at(r, pat, i) by {
            if occurs_at(r, pat, i) {
                if i == 0 {
                    let m = pat.len() - 1;
                    assert forall|j: int| 0 <= j < m implies r1[j] != pat[0] by {
                        assert(r.subrange(0, pat.len() as int)[j + 1] == r[j + 1]);
                        assert(r[j + 1] == r1[j]);
                    }
                    lemma_replaced_prefix(s1, pat, rep, m);
                    assert(s.subrange(0, pat.len() as int) =~= seq![s[0]] + s1.subrange(0, m));
                    assert(r.subrange(0, pat.len() as int) =~= seq![s[0]] + r1.subrange(0, m));
                } else {
                    assert(r.subrange(i, i + pat.len()) =~= r1.subrange(i - 1, i - 1 + pat.len()));
                    assert(occurs_at(r1, pat, i - 1));
                }
            }
        }
    }
}

/// Text without `pat` followed by text without `pat` holds no `pat`
/// when no copy can straddle the join: the second text starts with two
/// line breaks, and in `pat` a line break is never followed by another
/// nor ends it.
pub proof fn lemma_concat_leaves_none(a: Seq<char>, b: Seq<char>, pat: Seq<char>)
    requires
        !occurs(a, pat),
        !occurs(b, pat),
        b.len() >= 2,
        b[0] == '\n',
        b[1] == '\n',
        forall|k: int| 1 <= k < pat.len() && #[trigger] pat[k] == '\n' ==> k + 1 < pat.len() && pat[k + 1] != '\n',
        pat.len() > 0,
        pat[0] != '\n',
    ensures
        !occurs(a + b, pat),
{
    let c = a + b;
    assert forall|i: int| !occurs_at(c, pat, i) by {
        if occurs_at(c, pat, i) {
            if i + pat.len() <= a.len() {
                assert(c.subrange(i, i + pat.len()) =~= a.subrange(i, i + pat.len()));
                assert(occurs_at(a, pat, i));
            } else if i >= a.len() {
                assert(c.subrange(i, i + pat.len()) =~= b.subrange(i - a.len(), i - a.len() + pat.len()));
                assert(occurs_at(b, pat, i - a.len()));
            } else {
                let k = a.len() - i;
                assert(c.subrange(i, i + pat.len())[k] == c[a.len() as int]);
                assert(c[a.len() as int] == b[0]);
                if k == 0 {
                } else {
                    assert(pat[k] == '\n');
                    assert(c.subrange(i, i + pat.len())[k + 1] == c[a.len() + 1int]);
                    assert(c[a.len() + 1int] == b[1]);
                }
            }
        }
    }
}

/// Replacing a one-character pattern with text that lacks it removes that
/// character; and replacing never brings in a character that neither the
/// text nor the replacement holds.
pub proof fn lemma_replaced_chars(s: Seq<char>, pat: Seq<char>, rep: Seq<char>, c: char)
    requires
        pat.len() > 0,
        !rep.contains(c),
    ensures
        pat == seq![c] ==> !replaced(s, pat, rep).contains(c),
        !s.contains(c) ==> !replaced(s, pat, rep).contains(c),
    decreases s.len(),
{
    if s.len() < pat.len() {
        if pat == seq![c] {
            assert(s.len() == 0);
        }
    } else if s.subrange(0, pat.len() as int) == pat {
        let rest = s.subrange(pat.len() as int, s.len() as int);
        lemma_replaced_chars(rest, pat, rep, c);
        if !s.contains(c) {
            assert forall|i: int| 0 <= i < rest.len() implies rest[i] != c by {
                assert(s[i + pat.len()] == rest[i]);
            }
        }
        if pat == seq![c] {
            assert(rest =~= s.drop_first());
        }
        let r = replaced(rest, pat, rep);
        if pat == seq![c] || !s.contains(c) {
            assert forall|i: int| 0 <= i < (rep + r).len() implies (rep + r)[i] != c by {
                if i < rep.len() {
                    assert(rep[i] == (rep + r)[i]);
                } else {
                    assert(r[i - rep.len()] == (rep + r)[i]);
                }
            }
        }
    } else {
        let rest = s.subrange(1, s.len() as int);
        lemma_replaced_chars(rest, pat, rep, c);
        if !s.contains(c) {
            assert forall|i: int| 0 <= i < rest.len() implies rest[i] != c by {
                assert(s[i + 1] == rest[i]);
            }
        }
        if pat == seq![c] {
            assert(s[0] != c) by {
                assert(s.subrange(0, 1) =~= seq![s[0]]);
            }
        }
        let r = replaced(rest, pat, rep);
        if pat == seq![c] || !s.contains(c) {
            assert forall|i: int| 0 <= i < (seq![s[0]] + r).len() implies (seq![s[0]] + r)[i] != c by {
                if i == 0 {
                    if !s.contains(c) {
                        assert(s[0] == s[0]);
                    }
                } else {
                    assert(r[i - 1] == (seq![s[0]] + r)[i]);
                }
            }
        }
    }
}

/// Text without the pattern comes back unchanged.
pub proof fn lemma_replaced_absent(s: Seq<char>, pat: Seq<char>, rep: Seq<char>)
    requires
        pat.len() > 0,
        forall|i: int| 0 <= i <= s.len() - pat.len() ==> #[trigger] s.subrange(i, i + pat.len()) != pat,
    ensures
        replaced(s, pat, rep) == s,
    decreases s.len(),
{
    if s.len() >= pat.len() {
        let i0: int = 0;
        assert(s.subrange(i0, i0 + pat.len()) != pat);
        assert(s.subrange(i0, i0 + pat.len()) == s.subrange(0, pat.len() as int));
        let rest = s.subrange(1, s.len() as int);
        assert forall|i: int| 0 <= i <= rest.len() - pat.len() implies #[trigger] rest.subrange(i, i + pat.len())
            != pat by {
            assert(rest.subrange(i, i + pat.len()) =~= s.subrange(i + 1, i + 1 + pat.len()));
        }
        lemma_replaced_absent(rest, pat, rep);
        assert(seq![s[0]] + rest =~= s);
    }
}

} // verus!
