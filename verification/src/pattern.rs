//! Validation of flag values against a configured regular expression.

use vstd::prelude::*;

verus! {

/// What searching `text` with the regular expression `pattern` gives: whether
/// it has a match anywhere in `text`, or `None` where `pattern` is no regular
/// expression that the `regex` crate compiles.
pub uninterp spec fn pattern_match(pattern: Seq<char>, text: Seq<u8>) -> Option<bool>;

/// Is `pattern` a regular expression that the `regex` crate compiles? It is
/// if searching the empty text with it gives an outcome.
pub open spec fn compiles(pattern: Seq<char>) -> bool {
    pattern_match(pattern, Seq::<u8>::empty()).is_some()
}

/// Compiles `pattern` with `regex::bytes::Regex::new` and searches `text` with
/// `regex::bytes::Regex::is_match`. Not verified: the contract only names the
/// outcome, which depends on the two arguments alone, and says nothing of
/// which texts a pattern matches. Whether there is an outcome at all depends
/// on the pattern alone: there is none exactly where `Regex::new` returns an
/// error, whatever the text.
#[verifier::external_body]
pub(crate) fn match_pattern(pattern: &str, text: &[u8]) -> (r: Option<bool>)
    ensures
        r == pattern_match(pattern@, text@),
        r.is_some() == compiles(pattern@),
{
    match regex::bytes::Regex::new(pattern) {
        Ok(re) => Some(re.is_match(text)),
        Err(_) => None,
    }
}

/// Tells whether `pattern` can be used to check flag values.
pub fn pattern_compiles(pattern: &str) -> (r: bool)
    ensures
        r == compiles(pattern@),
{
    let nothing: Vec<u8> = Vec::new();
    match_pattern(pattern, nothing.as_slice()).is_some()
}

} // verus!
