//! Text normalization helpers: trimming and lowercasing.

use vstd::prelude::*;

verus! {

/// The characters with the Unicode `White_Space` property: exactly those
/// that `char::is_whitespace` accepts.
pub open spec fn whitespace_char(c: char) -> bool {
    c == '\u{0009}' || c == '\u{000A}' || c == '\u{000B}' || c == '\u{000C}' || c == '\u{000D}'
        || c == ' ' || c == '\u{0085}' || c == '\u{00A0}' || c == '\u{1680}' || c == '\u{2000}'
        || c == '\u{2001}' || c == '\u{2002}' || c == '\u{2003}' || c == '\u{2004}' || c
        == '\u{2005}' || c == '\u{2006}' || c == '\u{2007}' || c == '\u{2008}' || c == '\u{2009}'
        || c == '\u{200A}' || c == '\u{2028}' || c == '\u{2029}' || c == '\u{202F}' || c
        == '\u{205F}' || c == '\u{3000}'
}

/// The sequence without its leading whitespace.
pub open spec fn without_leading_ws(s: Seq<char>) -> Seq<char>
    decreases s.len(),
{
    if s.len() > 0 && whitespace_char(s[0]) {
        without_leading_ws(s.drop_first())
    } else {
        s
    }
}

/// The sequence without its trailing whitespace.
pub open spec fn without_trailing_ws(s: Seq<char>) -> Seq<char>
    decreases s.len(),
{
    if s.len() > 0 && whitespace_char(s.last()) {
        without_trailing_ws(s.drop_last())
    } else {
        s
    }
}

/// What trimming keeps: the characters with leading and trailing whitespace
/// removed.
pub open spec fn trimmed(s: Seq<char>) -> Seq<char> {
    without_trailing_ws(without_leading_ws(s))
}

/// Relies on `str::trim`: returns the slice with leading and trailing
/// Unicode whitespace removed.
#[verifier::external_body]
pub(crate) fn trim_str(s: &str) -> (r: &str)
    ensures
        r@ == trimmed(s@),
{
    s.trim()
}

/// The lowercase form that `str::to_lowercase` produces: a function of the
/// input's characters alone.
pub uninterp spec fn lowered(s: Seq<char>) -> Seq<char>;

/// Relies on `str::to_lowercase`: the Unicode lowercase form of the string.
/// The result depends on the characters alone, and an empty input stays
/// empty.
#[verifier::external_body]
pub(crate) fn lower_str(s: &str) -> (r: String)
    ensures
        r@ == lowered(s@),
        s@.len() == 0 ==> r@.len() == 0,
{
    s.to_lowercase()
}

} // verus!
