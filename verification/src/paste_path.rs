//! Reading pasted clipboard text as a local image path: the text test and
//! the image file extensions.

use crate::text::chars_of;
use vstd::prelude::*;
use vstd::string::{StrSliceExecFns, StringExecFns};

verus! {

/// Whether `c` has the Unicode White_Space property.
pub open spec fn is_white_space(c: char) -> bool {
    ||| '\u{9}' <= c <= '\u{d}'
    ||| c == ' '
    ||| c == '\u{85}'
    ||| c == '\u{a0}'
    ||| c == '\u{1680}'
    ||| '\u{2000}' <= c <= '\u{200a}'
    ||| c == '\u{2028}'
    ||| c == '\u{2029}'
    ||| c == '\u{202f}'
    ||| c == '\u{205f}'
    ||| c == '\u{3000}'
}

/// `s` without its leading white space.
pub open spec fn trim_start(s: Seq<char>) -> Seq<char>
    decreases s.len(),
{
    if s.len() > 0 && is_white_space(s[0]) {
        trim_start(s.drop_first())
    } else {
        s
    }
}

/// `s` without its trailing white space.
pub open spec fn trim_end(s: Seq<char>) -> Seq<char>
    decreases s.len(),
{
    if s.len() > 0 && is_white_space(s.last()) {
        trim_end(s.drop_last())
    } else {
        s
    }
}

/// `s` without leading and trailing white space.
pub open spec fn trimmed(s: Seq<char>) -> Seq<char> {
    trim_end(trim_start(s))
}

/// Whether `c` has the Unicode White_Space property.
fn white_space(c: char) -> (b: bool)
    ensures
        b == is_white_space(c),
{
    ('\u{9}' <= c && c <= '\u{d}') || c == ' ' || c == '\u{85}' || c == '\u{a0}' || c == '\u{1680}'
        || ('\u{2000}' <= c && c <= '\u{200a}') || c == '\u{2028}' || c == '\u{2029}' || c
        == '\u{202f}' || c == '\u{205f}' || c == '\u{3000}'
}

/// Dropping a leading run of white space up to a character that is none.
proof fn lemma_trim_start_at(s: Seq<char>, a: int)
    requires
        0 <= a <= s.len(),
        forall|j: int| 0 <= j < a ==> is_white_space(#[trigger] s[j]),
        a == s.len() || !is_white_space(s[a]),
    ensures
        trim_start(s) == s.subrange(a, s.len() as int),
    decreases a,
{
    if a == 0 {
        assert(s.subrange(0, s.len() as int) =~= s);
    } else {
        let t = s.drop_first();
        assert forall|j: int| 0 <= j < a - 1 implies is_white_space(#[trigger] t[j]) by {
            assert(t[j] == s[j + 1]);
        }
        lemma_trim_start_at(t, a - 1);
        assert(t.subrange(a - 1, t.len() as int) =~= s.subrange(a, s.len() as int));
    }
}

/// Dropping a trailing run of white space back to a character that is none.
proof fn lemma_trim_end_at(s: Seq<char>, b: int)
    requires
        0 <= b <= s.len(),
        forall|j: int| b <= j < s.len() ==> is_white_space(#[trigger] s[j]),
        b == 0 || !is_white_space(s[b - 1]),
    ensures
        trim_end(s) == s.subrange(0, b),
    decreases s.len() - b,
{
    if b == s.len() {
        assert(s.subrange(0, b) =~= s);
    } else {
        let t = s.drop_last();
        assert forall|j: int| b <= j < t.len() implies is_white_space(#[trigger] t[j]) by {
            assert(t[j] == s[j]);
        }
        lemma_trim_end_at(t, b);
        assert(t.subrange(0, b) =~= s.subrange(0, b));
    }
}

/// The text with leading and trailing white space (the Unicode White_Space
/// property) removed, as `str::trim` does.
fn trim_text(s: &str) -> (r: &str)
    ensures
        r@ == trimmed(s@),
{
    let chars = chars_of(s);
    let n = chars.len();
    let mut a: usize = 0;
    while a < n && white_space(chars[a])
        invariant
            chars@ == s@,
            n == chars@.len(),
            a <= n,
            forall|j: int| 0 <= j < a ==> is_white_space(#[trigger] chars@[j]),
        decreases n - a,
    {
        a = a + 1;
    }
    let mut b: usize = n;
    while b > a && white_space(chars[b - 1])
        invariant
            chars@ == s@,
            n == chars@.len(),
            a <= b <= n,
            forall|j: int| b <= j < n ==> is_white_space(#[trigger] chars@[j]),
        decreases b,
    {
        b = b - 1;
    }
    proof {
        lemma_trim_start_at(s@, a as int);
        let t = s@.subrange(a as int, n as int);
        assert forall|j: int| (b - a) <= j < t.len() implies is_white_space(#[trigger] t[j]) by {
            assert(t[j] == s@[j + a]);
        }
        if b > a {
            assert(t[b - a - 1] == s@[b - 1]);
        }
        lemma_trim_end_at(t, b - a);
        assert(t.subrange(0, b - a) =~= s@.subrange(a as int, b as int));
    }
    s.substring_char(a, b)
}

/// The text between a leading and a trailing `"`, when both are there and
/// distinct; otherwise the text itself.
pub open spec fn unquoted(s: Seq<char>) -> Seq<char> {
    if s.len() >= 2 && s[0] == '"' && s.last() == '"' {
        s.subrange(1, s.len() - 1)
    } else {
        s
    }
}

/// The path a pasted text may name: the trimmed text, without
/// surrounding quotes; none when the trimmed text is empty or spans
/// several lines.
pub open spec fn image_candidate(text: Seq<char>) -> Option<Seq<char>> {
    let t = trimmed(text);
    if t.len() == 0 || t.contains('\n') || t.contains('\r') {
        None
    } else {
        Some(unquoted(t))
    }
}

/// The path that pasted `text` may name: the trimmed text without
/// surrounding quotes. `None` when the trimmed text is empty or holds a
/// line break.
pub fn pasted_image_candidate(text: &str) -> (r: Option<String>)
    ensures
        match r {
            Some(p) => image_candidate(text@) == Some(p@),
            None => image_candidate(text@).is_none(),
        },
{
    let trimmed_text = trim_text(text);
    let chars = chars_of(trimmed_text);
    let n = chars.len();
    if n == 0 {
        return None;
    }
    let mut k: usize = 0;
    while k < n
        invariant
            n == chars@.len(),
            chars@ == trimmed(text@),
            0 <= k <= n,
            forall|j: int| 0 <= j < k ==> chars@[j] != '\n' && chars@[j] != '\r',
        decreases n - k,
    {
        if chars[k] == '\n' || chars[k] == '\r' {
            assert(chars@.contains(chars@[k as int]));
            return None;
        }
        k = k + 1;
    }
    assert(!chars@.contains('\n') && !chars@.contains('\r'));
    if n >= 2 && chars[0] == '"' && chars[n - 1] == '"' {
        Some(String::from_str(trimmed_text.substring_char(1, n - 1)))
    } else {
        Some(String::from_str(trimmed_text))
    }
}

/// The scheme of `text` read as a URL by `url::Url::parse`, or `None` when
/// the text is no URL.
pub uninterp spec fn parsed_url_scheme(text: Seq<char>) -> Option<Seq<char>>;

#[verifier::external_type_specification]
#[verifier::external_body]
pub struct ExPathBuf(std::path::PathBuf);

/// `url::Url::parse` on `candidate`, then `Url::scheme` and
/// `Url::to_file_path` of the URL. The scheme is named by
/// `parsed_url_scheme`; the file path is left unstated, because
/// `to_file_path` reads a URL differently on Windows and elsewhere.
#[verifier::external_body]
fn parse_url_parts(candidate: &str) -> (r: Option<(String, Option<std::path::PathBuf>)>)
    ensures
        match r {
            Some(parts) => parsed_url_scheme(candidate@) == Some(parts.0@),
            None => parsed_url_scheme(candidate@).is_none(),
        },
{
    match url::Url::parse(candidate) {
        Ok(url) => Some((String::from(url.scheme()), url.to_file_path().ok())),
        Err(_) => None,
    }
}

/// The local path a parsed URL names: its file path when its scheme is
/// `file`.
pub open spec fn file_path_of(parts: Option<(Seq<char>, Option<std::path::PathBuf>)>) -> Option<
    std::path::PathBuf,
> {
    match parts {
        Some((scheme, path)) => if scheme == "file"@ {
            path
        } else {
            None
        },
        None => None,
    }
}

/// The parts of a parsed URL, the scheme as plain text.
pub open spec fn parts_view(parts: Option<(String, Option<std::path::PathBuf>)>) -> Option<
    (Seq<char>, Option<std::path::PathBuf>),
> {
    match parts {
        Some((scheme, path)) => Some((scheme@, path)),
        None => None,
    }
}

/// The local path named by a URL with the given scheme and file path (as
/// `parse_url_parts` gives them): the file path when the scheme is `file`,
/// otherwise none.
pub fn file_path_from_url_parts(parts: Option<(String, Option<std::path::PathBuf>)>) -> (r: Option<
    std::path::PathBuf,
>)
    ensures
        r == file_path_of(parts_view(parts)),
{
    let file = "file";
    proof {
        reveal_strlit("file");
    }
    match parts {
        Some((scheme, path)) => {
            if same_chars(&chars_of(scheme.as_str()), &chars_of(file)) {
                path
            } else {
                None
            }
        },
        None => None,
    }
}

/// The local path that `candidate` names as a `file:` URL: none unless
/// the text is a URL whose scheme is `file`; otherwise the path that
/// `file_path_from_url_parts` takes from the parsed URL.
pub fn file_url_path(candidate: &str) -> (r: Option<std::path::PathBuf>)
    ensures
        r is Some ==> parsed_url_scheme(candidate@) == Some("file"@),
        parsed_url_scheme(candidate@) != Some("file"@) ==> r is None,
{
    let parts = parse_url_parts(candidate);
    file_path_from_url_parts(parts)
}

/// What pasted `text` may name as a local image: the path as written (the
/// trimmed text without surrounding quotes), and the path that text names
/// as a `file:` URL, if it is one. `None` when the trimmed text is empty or
/// holds a line break. The caller tries the written path on disk first,
/// then the URL's path.
pub fn pasted_image_path_candidates(text: &str) -> (r: Option<(String, Option<std::path::PathBuf>)>)
    ensures
        match r {
            Some(c) => {
                &&& image_candidate(text@) == Some(c.0@)
                &&& c.1 is Some ==> parsed_url_scheme(c.0@) == Some("file"@)
                &&& parsed_url_scheme(c.0@) != Some("file"@) ==> c.1 is None
            },
            None => image_candidate(text@).is_none(),
        },
{
    match pasted_image_candidate(text) {
        Some(candidate) => {
            let url_path = file_url_path(candidate.as_str());
            Some((candidate, url_path))
        },
        None => None,
    }
}

/// ASCII letters in lower case; other characters as they are.
pub open spec fn ascii_lower(s: Seq<char>) -> Seq<char> {
    s.map_values(|c: char| if 'A' <= c <= 'Z' {
        ((c as u32) + 32) as char
    } else {
        c
    })
}

/// The file extensions read as images, in lower case.
pub open spec fn image_extensions() -> Seq<Seq<char>> {
    seq!["png"@, "jpg"@, "jpeg"@, "gif"@, "webp"@, "svg"@, "bmp"@, "tif"@, "tiff"@]
}

/// Whether `ext`, compared without regard to ASCII case, is the extension
/// of an image format the editor embeds.
pub fn is_supported_image_extension(ext: &str) -> (b: bool)
    ensures
        b == image_extensions().contains(ascii_lower(ext@)),
{
    let chars = chars_of(ext);
    let mut lower: Vec<char> = Vec::new();
    let mut k: usize = 0;
    while k < chars.len()
        invariant
            0 <= k <= chars@.len(),
            chars@ == ext@,
            lower@ == ascii_lower(ext@.subrange(0, k as int)),
        decreases chars@.len() - k,
    {
        let c = chars[k];
        let l = if 'A' <= c && c <= 'Z' {
            ((c as u8) + 32) as char
        } else {
            c
        };
        lower.push(l);
        k = k + 1;
        assert(lower@ =~= ascii_lower(ext@.subrange(0, k as int)));
    }
    assert(ext@.subrange(0, chars@.len() as int) =~= ext@);
    let names: [&str; 9] = ["png", "jpg", "jpeg", "gif", "webp", "svg", "bmp", "tif", "tiff"];
    proof {
        reveal_strlit("png");
        reveal_strlit("jpg");
        reveal_strlit("jpeg");
        reveal_strlit("gif");
        reveal_strlit("webp");
        reveal_strlit("svg");
        reveal_strlit("bmp");
        reveal_strlit("tif");
        reveal_strlit("tiff");
    }
    let mut i: usize = 0;
    while i < 9
        invariant
            0 <= i <= 9,
            lower@ == ascii_lower(ext@),
            forall|j: int| 0 <= j < 9 ==> (#[trigger] names@[j])@ == image_extensions()[j],
            forall|j: int| 0 <= j < i ==> image_extensions()[j] != lower@,
        decreases 9 - i,
    {
        let name = chars_of(names[i]);
        if same_chars(&name, &lower) {
            assert(image_extensions()[i as int] == lower@);
            return true;
        }
        i = i + 1;
    }
    assert(!image_extensions().contains(ascii_lower(ext@)));
    false
}

/// Whether two character sequences are equal.
fn same_chars(a: &Vec<char>, b: &Vec<char>) -> (r: bool)
    ensures
        r == (a@ == b@),
{
    if a.len() != b.len() {
        return false;
    }
    let mut k: usize = 0;
    while k < a.len()
        invariant
            a@.len() == b@.len(),
            0 <= k <= a@.len(),
            forall|j: int| 0 <= j < k ==> a@[j] == b@[j],
        decreases a@.len() - k,
    {
        if a[k] != b[k] {
            return false;
        }
        k = k + 1;
    }
    assert(a@ =~= b@);
    true
}

} // verus!
