//! Patterns: compiling the text of a pattern and testing it on a text, both
//! done by the `regex` crate.

use regex::{Regex, RegexBuilder};
use vstd::prelude::*;

verus! {

#[verifier::external_type_specification]
#[verifier::external_body]
pub struct ExRegex(Regex);

#[verifier::external_type_specification]
#[verifier::external_body]
pub struct ExRegexError(regex::Error);

/// What compiling `pattern` gives, with or without regard to case: the
/// compiled pattern, or the error that says why it cannot be compiled.
pub uninterp spec fn regex_build(pattern: Seq<char>, insensitive: bool) -> Result<
    Regex,
    regex::Error,
>;

/// The text by which a compile error describes itself.
pub uninterp spec fn regex_error_text(e: regex::Error) -> Seq<char>;

/// Whether the compiled pattern finds a match anywhere in `text`.
pub uninterp spec fn regex_accepts(pattern: Regex, text: Seq<char>) -> bool;

/// `RegexBuilder::new(pattern)`, `case_insensitive(insensitive)` and
/// `build()`.
///
/// Trusted: what comes back is fixed by the pattern text and the flag.
#[verifier::external_body]
fn build_regex(pattern: &str, insensitive: bool) -> (r: Result<Regex, regex::Error>)
    ensures
        r == regex_build(pattern@, insensitive),
{
    RegexBuilder::new(pattern).case_insensitive(insensitive).build()
}

/// `to_string` on a `regex::Error`, which goes by its `Display`.
///
/// Trusted: the text is fixed by the error.
#[verifier::external_body]
fn error_text(e: &regex::Error) -> (text: String)
    ensures
        text@ == regex_error_text(*e),
{
    e.to_string()
}

/// `Regex::is_match`.
///
/// Trusted: the answer is fixed by the compiled pattern and the text.
pub assume_specification[ Regex::is_match ](pattern: &Regex, haystack: &str) -> (r: bool)
    ensures
        r == regex_accepts(*pattern, haystack@),
;

/// A pattern that could not be compiled, with the reason as text.
#[derive(Debug)]
pub struct PatternError {
    pub message: String,
}

/// The outcome of a compilation as the library reports it: the compiled
/// pattern, or the text of the error.
pub open spec fn reported(built: Result<Regex, regex::Error>) -> Result<Regex, Seq<char>> {
    match built {
        Ok(compiled) => Ok(compiled),
        Err(e) => Err(regex_error_text(e)),
    }
}

/// The view of an outcome: the message of an error as characters.
pub open spec fn outcome_view(outcome: Result<Regex, PatternError>) -> Result<Regex, Seq<char>> {
    match outcome {
        Ok(compiled) => Ok(compiled),
        Err(e) => Err(e.message@),
    }
}

/// Turns the result of a compilation into the library's own: the compiled
/// pattern is passed on, an error is replaced by its text.
pub fn pattern_outcome(built: Result<Regex, regex::Error>) -> (outcome: Result<
    Regex,
    PatternError,
>)
    ensures
        outcome_view(outcome) == reported(built),
{
    match built {
        Ok(compiled) => Ok(compiled),
        Err(e) => Err(PatternError { message: error_text(&e) }),
    }
}

/// Compiles `pattern`, without regard to case where `insensitive` is set.
pub fn compile_pattern(pattern: &str, insensitive: bool) -> (outcome: Result<Regex, PatternError>)
    ensures
        outcome_view(outcome) == reported(regex_build(pattern@, insensitive)),
{
    pattern_outcome(build_regex(pattern, insensitive))
}

} // verus!
