//! Compiled patterns. Compiling and matching are the work of the `regex`
//! crate; this file holds everything the library takes on trust from it.

use crate::matches::{spans_ascend, spans_lie_in};
use vstd::prelude::*;

verus! {

/// A compiled pattern of the `regex` crate. Nothing inside it is visible here.
#[verifier::external_type_specification]
#[verifier::external_body]
pub struct ExRegex(regex::Regex);

/// The error with which the `regex` crate refuses a pattern.
#[verifier::external_type_specification]
#[verifier::external_body]
pub struct ExRegexError(regex::Error);

/// The outcome of `Regex::new` on a pattern: nothing where the pattern
/// compiles, else the text of the error it is refused with.
pub uninterp spec fn regex_refusal(pattern: Seq<char>) -> Option<Seq<char>>;

/// The text that an error of the `regex` crate displays.
pub uninterp spec fn regex_error_text(error: regex::Error) -> Seq<char>;

/// The matches in a haystack of the pattern that `Regex::new` compiles from
/// the given text, each as its start and end byte offset, from left to right.
pub uninterp spec fn pattern_spans(pattern: Seq<char>, haystack: Seq<char>) -> Seq<(usize, usize)>;

/// The matches that `Regex::find_iter` yields for a compiled pattern in a
/// haystack, each as its start and end byte offset, in the order yielded.
pub uninterp spec fn regex_spans(regex: regex::Regex, haystack: Seq<char>) -> Seq<(usize, usize)>;

/// `Regex::new` compiles a pattern with the crate's default settings.
/// Whether it succeeds, and what the compiled pattern then matches, depends
/// on the pattern text alone. A refusal comes as an error whose display text
/// is the one named for the pattern.
pub assume_specification[ regex::Regex::new ](re: &str) -> (compiled: Result<
    regex::Regex,
    regex::Error,
>)
    ensures
        match compiled {
            Ok(regex) => {
                &&& regex_refusal(re@) is None
                &&& forall|haystack: Seq<char>| #[trigger]
                    regex_spans(regex, haystack) == pattern_spans(re@, haystack)
            },
            Err(error) => regex_refusal(re@) == Some(regex_error_text(error)),
        },
;

/// The display text of a `regex::Error`, through its `to_string`.
#[verifier::external_body]
pub(crate) fn error_text(error: &regex::Error) -> (text: String)
    ensures
        text@ == regex_error_text(*error),
{
    error.to_string()
}

/// All matches of a compiled pattern in a haystack, through
/// `Regex::find_iter`, `Match::start` and `Match::end`. The crate documents
/// that the matches come one after the other without overlap, that each
/// starts no later than it ends, and that both offsets lie within the
/// haystack between two characters, so that the haystack can be sliced there.
#[verifier::external_body]
pub(crate) fn find_spans(regex: &regex::Regex, haystack: &str) -> (spans: Vec<(usize, usize)>)
    ensures
        spans@ == regex_spans(*regex, haystack@),
        spans_lie_in(haystack@, spans@),
        spans_ascend(spans@),
{
    regex.find_iter(haystack).map(|found| (found.start(), found.end())).collect()
}

} // verus!
