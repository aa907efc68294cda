//! String helpers shared by the label, path and process-name logic.
//!
//! The functions marked `external_body` each wrap one function of Rust's
//! standard library for which vstd gives no specification; their contracts
//! restate what the standard library documents.
use vstd::prelude::*;
use vstd::string::*;

verus! {

/// ASCII lower-casing of one character: `'A'..='Z'` become `'a'..='z'`,
/// every other character is left alone.
pub open spec fn ascii_lower(c: char) -> char {
    if 'A' <= c && c <= 'Z' {
        ((c as u32) + 32) as char
    } else {
        c
    }
}

/// A character sequence with every ASCII capital letter lower-cased.
pub open spec fn ascii_folded(s: Seq<char>) -> Seq<char> {
    s.map_values(|c: char| ascii_lower(c))
}

/// `p` is a prefix of `s`.
pub open spec fn has_prefix(s: Seq<char>, p: Seq<char>) -> bool {
    p.len() <= s.len() && s.subrange(0, p.len() as int) == p
}

/// `p` is a suffix of `s`.
pub open spec fn has_suffix(s: Seq<char>, p: Seq<char>) -> bool {
    p.len() <= s.len() && s.subrange(s.len() - p.len(), s.len() as int) == p
}

/// `s` with the suffix `p` removed when it ends with `p`, `s` itself otherwise.
pub open spec fn without_suffix(s: Seq<char>, p: Seq<char>) -> Seq<char> {
    if has_suffix(s, p) {
        s.subrange(0, s.len() - p.len())
    } else {
        s
    }
}

/// The decimal digits of `n`, most significant first, without sign or padding.
pub open spec fn decimal(n: nat) -> Seq<char>
    decreases n,
{
    if n < 10 {
        seq![(('0' as u32) + n) as char]
    } else {
        decimal(n / 10).push((('0' as u32) + (n % 10)) as char)
    }
}

/// The characters with the Unicode `White_Space` property, which
/// `char::is_whitespace` accepts.
pub open spec fn is_white_space(c: char) -> bool {
    ||| '\u{9}' <= c && c <= '\u{D}'
    ||| c == ' '
    ||| c == '\u{85}'
    ||| c == '\u{A0}'
    ||| c == '\u{1680}'
    ||| '\u{2000}' <= c && c <= '\u{200A}'
    ||| c == '\u{2028}'
    ||| c == '\u{2029}'
    ||| c == '\u{202F}'
    ||| c == '\u{205F}'
    ||| c == '\u{3000}'
}

/// `s` without its leading white space.
pub open spec fn trimmed_start(s: Seq<char>) -> Seq<char>
    decreases s.len(),
{
    if s.len() > 0 && is_white_space(s[0]) {
        trimmed_start(s.drop_first())
    } else {
        s
    }
}

/// `s` without its trailing white space.
pub open spec fn trimmed_end(s: Seq<char>) -> Seq<char>
    decreases s.len(),
{
    if s.len() > 0 && is_white_space(s.last()) {
        trimmed_end(s.drop_last())
    } else {
        s
    }
}

/// `s` without its leading and trailing white space, as `str::trim` returns it.
pub open spec fn trimmed(s: Seq<char>) -> Seq<char> {
    trimmed_end(trimmed_start(s))
}

/// What `str::to_lowercase` returns for a string: its Unicode lower-case mapping.
pub uninterp spec fn lowercased(s: Seq<char>) -> Seq<char>;

/// Wraps `<str as PartialEq>::eq`. Claimed: two string slices compare equal
/// exactly when they hold the same characters.
#[verifier::external_body]
pub(crate) fn str_equal(a: &str, b: &str) -> (equal: bool)
    ensures
        equal == (a@ == b@),
{
    a == b
}

/// Wraps `str::eq_ignore_ascii_case`. Claimed, after the standard library's
/// documentation ("same as `to_ascii_lowercase(a) == to_ascii_lowercase(b)`"):
/// the two strings match once ASCII capitals are lower-cased on both sides.
#[verifier::external_body]
pub(crate) fn str_eq_ignore_ascii_case(a: &str, b: &str) -> (equal: bool)
    ensures
        equal == (ascii_folded(a@) == ascii_folded(b@)),
{
    a.eq_ignore_ascii_case(b)
}

/// Wraps `str::starts_with` with a string pattern. Claimed: true exactly when
/// `prefix` is a prefix of `s`.
#[verifier::external_body]
pub(crate) fn str_starts_with(s: &str, prefix: &str) -> (starts: bool)
    ensures
        starts == has_prefix(s@, prefix@),
{
    s.starts_with(prefix)
}

/// Wraps `str::ends_with` with a string pattern. Claimed: true exactly when
/// `suffix` is a suffix of `s`.
#[verifier::external_body]
pub(crate) fn str_ends_with(s: &str, suffix: &str) -> (ends: bool)
    ensures
        ends == has_suffix(s@, suffix@),
{
    s.ends_with(suffix)
}

/// `s` without the prefix `prefix`, when it starts with it.
pub fn strip_prefix<'a>(s: &'a str, prefix: &str) -> (rest: Option<&'a str>)
    ensures
        has_prefix(s@, prefix@) ==> (rest matches Some(r) && r@ == s@.subrange(prefix@.len() as int, s@.len() as int)),
        !has_prefix(s@, prefix@) ==> rest is None,
{
    if str_starts_with(s, prefix) {
        let from = prefix.unicode_len();
        let to = s.unicode_len();
        Some(s.substring_char(from, to))
    } else {
        None
    }
}

/// `s` without the suffix `suffix`, when it ends with it.
pub fn strip_suffix<'a>(s: &'a str, suffix: &str) -> (rest: Option<&'a str>)
    ensures
        has_suffix(s@, suffix@) ==> (rest matches Some(r) && r@ == s@.subrange(0, s@.len() - suffix@.len())),
        !has_suffix(s@, suffix@) ==> rest is None,
{
    if str_ends_with(s, suffix) {
        let cut = s.unicode_len() - suffix.unicode_len();
        Some(s.substring_char(0, cut))
    } else {
        None
    }
}

/// Wraps `str::trim`. Claimed, after the standard library's documentation:
/// the string without its leading and trailing characters that have the
/// Unicode `White_Space` property.
#[verifier::external_body]
pub(crate) fn str_trim(s: &str) -> (t: &str)
    ensures
        t@ == trimmed(s@),
{
    s.trim()
}

/// Wraps `str::to_lowercase`. Claimed: the result is the string that
/// `lowercased` names.
#[verifier::external_body]
pub(crate) fn str_to_lowercase(s: &str) -> (l: String)
    ensures
        l@ == lowercased(s@),
{
    s.to_lowercase()
}

/// Wraps `<u64 as ToString>::to_string`. Claimed: an unsigned integer is
/// written as its decimal digits.
#[verifier::external_body]
pub(crate) fn u64_to_decimal(n: u64) -> (s: String)
    ensures
        s@ == decimal(n as nat),
{
    n.to_string()
}

/// The concatenation of three string slices.
pub fn join3(a: &str, b: &str, c: &str) -> (s: String)
    ensures
        s@ == a@ + b@ + c@,
{
    let mut s = String::from_str(a);
    s.append(b);
    s.append(c);
    s
}

} // verus!
