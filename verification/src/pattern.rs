//! Regular expressions, compiled by the `regex` crate.
use vstd::prelude::*;

verus! {

/// `regex::Regex`, a compiled regular expression. The library carries such
/// values along and never looks inside.
#[verifier::external_type_specification]
#[verifier::external_body]
pub struct ExRegex(regex::Regex);

/// `regex::Error`, the error with which a pattern is rejected. The library
/// asks it for its text and never looks inside.
#[verifier::external_type_specification]
#[verifier::external_body]
pub struct ExRegexError(regex::Error);

/// Whether `regex::Regex::new` compiles the pattern: it rejects patterns
/// that are not regular expressions and those that are too big.
pub uninterp spec fn regex_accepts(pattern: Seq<char>) -> bool;

/// Calls `regex::Regex::new`, which compiles a pattern or rejects it. It
/// returns the compiled expression exactly when the pattern is accepted;
/// nothing is claimed about which patterns are.
#[verifier::external_body]
pub(crate) fn compile(pattern: &str) -> (r: Result<regex::Regex, regex::Error>)
    ensures
        r is Ok <==> regex_accepts(pattern@),
{
    regex::Regex::new(pattern)
}

/// Calls `description` on a `regex::Error`, which says why the pattern was
/// rejected. Nothing is claimed of the text.
#[verifier::external_body]
#[allow(deprecated)]
pub(crate) fn reason(error: &regex::Error) -> (text: String) {
    String::from(std::error::Error::description(error))
}

/// `Clone` for `regex::Regex`. Nothing is claimed of the copy: to this
/// library a compiled expression is opaque.
pub assume_specification[ <regex::Regex as Clone>::clone ](r: &regex::Regex) -> (copy: regex::Regex)
;

} // verus!
