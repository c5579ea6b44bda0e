//! Regular-expression support for the `=~` / `!~` leaf.  Pattern
//! compilation and matching are done by the `regex` crate; the library
//! only names their results, which depend on the arguments alone.

use vstd::prelude::*;

verus! {

/// Whether a pattern compiles: the result of `regex::bytes::Regex::new`
/// on the UTF-8 decoding of `pat`; bytes that are not UTF-8 or a
/// rejected pattern are both invalid.
pub uninterp spec fn regex_valid(pat: Seq<u8>) -> bool;

/// Whether a pattern matches a haystack, the pattern being compiled
/// case-insensitively when `ci` is set; a pattern that does not compile
/// matches nothing.
pub uninterp spec fn regex_match(pat: Seq<u8>, text: Seq<u8>, ci: bool) -> bool;

/// Relies on `regex::bytes::Regex::new` (with `str::from_utf8` decoding
/// the pattern): decides whether the pattern compiles.
#[verifier::external_body]
pub(crate) fn regex_pattern_ok(pat: &Vec<u8>) -> (r: bool)
    ensures
        r == regex_valid(pat@),
{
    match std::str::from_utf8(pat) {
        Ok(s) => regex::bytes::Regex::new(s).is_ok(),
        Err(_) => false,
    }
}

/// Relies on `regex::bytes::RegexBuilder` (`case_insensitive`, `build`)
/// and `regex::bytes::Regex::is_match`: the result depends on the
/// pattern, the haystack and the flag alone.
#[verifier::external_body]
pub(crate) fn regex_is_match(pat: &Vec<u8>, text: &Vec<u8>, ci: bool) -> (r: bool)
    ensures
        r == regex_match(pat@, text@, ci),
{
    match std::str::from_utf8(pat) {
        Ok(s) => match regex::bytes::RegexBuilder::new(s).case_insensitive(ci).build() {
            Ok(re) => re.is_match(text),
            Err(_) => false,
        },
        Err(_) => false,
    }
}

} // verus!
