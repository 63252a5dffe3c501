//! Regular expressions, as far as the filter pipeline needs them: a
//! pattern is compiled once and then asked whether it matches a text.
//! Both steps are carried out by the `regex` crate.

use vstd::prelude::*;

verus! {

/// `regex::Regex`, a compiled regular expression. Nothing inside it is
/// visible to the proofs.
#[verifier::external_type_specification]
#[verifier::external_body]
pub struct ExRegex(regex::Regex);

/// `regex::Error`, the reason a pattern does not compile. Nothing inside
/// it is visible to the proofs.
#[verifier::external_type_specification]
#[verifier::external_body]
pub struct ExRegexError(regex::Error);

/// What `regex::Regex::new` returns for a pattern: the compiled expression,
/// or the reason the pattern is refused.
pub uninterp spec fn regex_new(pattern: Seq<char>) -> Result<regex::Regex, regex::Error>;

/// What `regex::Regex::is_match` returns: whether the expression matches
/// anywhere in the text.
pub uninterp spec fn regex_is_match(re: regex::Regex, haystack: Seq<char>) -> bool;

/// Calls `regex::Regex::new`. Nothing is claimed about which patterns
/// compile, only that the outcome is a function of the pattern.
#[verifier::external_body]
pub(crate) fn compile(pattern: &str) -> (r: Result<regex::Regex, regex::Error>)
    ensures
        r == regex_new(pattern@),
{
    regex::Regex::new(pattern)
}

/// Calls `regex::Regex::is_match`. Nothing is claimed about which texts
/// match, only that the answer is a function of the expression and the text.
#[verifier::external_body]
pub(crate) fn is_match(re: &regex::Regex, haystack: &str) -> (b: bool)
    ensures
        b == regex_is_match(*re, haystack@),
{
    re.is_match(haystack)
}

} // verus!
