//! Markdown hyperlinks (`[text](url)`) and destination URL cleanup.
use vstd::prelude::*;
use crate::text::{chars_of, extend_chars, extend_vec, is_white_space, lemma_trim_idempotent, string_from_chars, trim, trim_chars, trim_end, trim_start};

verus! {

/// Code of `c` after ASCII lowercasing (`A` to `Z` become `a` to `z`).
pub open spec fn ascii_lower_code(c: char) -> u32 {
    if 65 <= (c as u32) <= 90 {
        ((c as u32) + 32) as u32
    } else {
        c as u32
    }
}

/// Does `s` start with `prefix` (written in lowercase) once ASCII-lowercased?
pub open spec fn starts_with_ignoring_ascii_case(s: Seq<char>, prefix: Seq<char>) -> bool {
    &&& s.len() >= prefix.len()
    &&& forall|i: int| 0 <= i < prefix.len() ==> ascii_lower_code(#[trigger] s[i]) == prefix[i] as u32
}

/// Does the URL start with a scheme that runs code or embeds a document
/// (`javascript:`, `vbscript:` or `data:`, in any ASCII case)?
pub open spec fn has_unsafe_scheme(url: Seq<char>) -> bool {
    ||| starts_with_ignoring_ascii_case(url, "javascript:"@)
    ||| starts_with_ignoring_ascii_case(url, "vbscript:"@)
    ||| starts_with_ignoring_ascii_case(url, "data:"@)
}

/// The destination a link gets for the raw URL `url`: the URL without
/// surrounding whitespace, or `#` when nothing is left or when it has an
/// unsafe scheme.
pub open spec fn sanitized_url(url: Seq<char>) -> Seq<char> {
    if trim(url).len() == 0 || has_unsafe_scheme(trim(url)) {
        "#"@
    } else {
        trim(url)
    }
}

/// Markdown link syntax for `text` pointing at `url`.
pub open spec fn markdown_link(text: Seq<char>, url: Seq<char>) -> Seq<char> {
    "["@ + text + "]("@ + sanitized_url(url) + ")"@
}

fn starts_with_ignoring_ascii_case_chars(v: &Vec<char>, prefix: &str) -> (res: bool)
    ensures
        res == starts_with_ignoring_ascii_case(v@, prefix@),
{
    let p = chars_of(prefix);
    if v.len() < p.len() {
        return false;
    }
    let mut i: usize = 0;
    while i < p.len()
        invariant
            i <= p@.len(),
            p@ == prefix@,
            v@.len() >= p@.len(),
            forall|j: int| 0 <= j < i ==> ascii_lower_code(#[trigger] v@[j]) == p@[j] as u32,
        decreases p.len() - i,
    {
        let c: u32 = v[i] as u32;
        let lower: u32 = if 65 <= c && c <= 90 { c + 32 } else { c };
        if lower != (p[i] as u32) {
            return false;
        }
        i += 1;
    }
    true
}

fn sanitized_url_chars(url: &str) -> (res: Vec<char>)
    ensures
        res@ == sanitized_url(url@),
{
    let v = chars_of(url);
    let t = trim_chars(&v);
    if t.len() == 0 || starts_with_ignoring_ascii_case_chars(&t, "javascript:")
        || starts_with_ignoring_ascii_case_chars(&t, "vbscript:") || starts_with_ignoring_ascii_case_chars(&t, "data:") {
        chars_of("#")
    } else {
        t
    }
}

/// Cleans a destination URL: surrounding whitespace is removed, and an empty
/// URL, or one with an unsafe scheme (`javascript:`, `vbscript:`, `data:`),
/// becomes `#`.
pub fn sanitize_url(url: &str) -> (res: String)
    ensures
        res@ == sanitized_url(url@),
{
    let v = sanitized_url_chars(url);
    string_from_chars(&v)
}

/// Formats link text and destination into Markdown link syntax (`[text](url)`).
pub fn format_markdown_link(text: &str, url: &str) -> (res: String)
    ensures
        res@ == markdown_link(text@, url@),
{
    let clean = sanitized_url_chars(url);
    let mut v = chars_of("[");
    extend_chars(&mut v, text);
    extend_chars(&mut v, "](");
    extend_vec(&mut v, &clean);
    extend_chars(&mut v, ")");
    string_from_chars(&v)
}

/// A cleaned URL is never empty, has no surrounding whitespace left and
/// never starts with an unsafe scheme.
pub proof fn lemma_sanitized_url(url: Seq<char>)
    ensures
        sanitized_url(url).len() > 0,
        trim(sanitized_url(url)) == sanitized_url(url),
        !has_unsafe_scheme(sanitized_url(url)),
{
    reveal_strlit("#");
    reveal_strlit("javascript:");
    reveal_strlit("vbscript:");
    reveal_strlit("data:");
    if trim(url).len() == 0 || has_unsafe_scheme(trim(url)) {
        let h = "#"@;
        assert(!is_white_space(h[0]));
        assert(trim_start(h) == h);
        assert(trim_end(h) == h);
        assert(ascii_lower_code(h[0]) == 35);
    } else {
        lemma_trim_idempotent(url);
    }
}

} // verus!
