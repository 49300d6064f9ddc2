//! The search engine: a pattern compiled once, and the options it runs with.

use crate::error::{Failure, SearchError};
use crate::matches::{found_view, line_match, SearchResult};
use crate::options::{resolve_format, Options, OutputFormat};
use crate::pattern::{
    error_text, find_spans, pattern_spans, regex_error_text, regex_refusal, regex_spans,
};
use regex::Regex;
use vstd::prelude::*;
use vstd::string::*;

verus! {

/// The pattern that is compiled for what the caller wrote: with case ignored,
/// the directive `(?i)` stands in front of the whole of it.
pub open spec fn effective_pattern(pattern: Seq<char>, case_ignore: bool) -> Seq<char> {
    if case_ignore {
        seq!['(', '?', 'i', ')'] + pattern
    } else {
        pattern
    }
}

/// The text of the pattern to compile.
pub fn effective_pattern_text(pattern: &str, case_ignore: bool) -> (text: String)
    ensures
        text@ == effective_pattern(pattern@, case_ignore),
{
    if case_ignore {
        proof {
            reveal_strlit("(?i)");
        }
        let text = String::from_str("(?i)").concat(pattern);
        assert(text@ =~= effective_pattern(pattern@, case_ignore));
        text
    } else {
        pattern.to_owned()
    }
}

/// A compiled pattern together with the options of the search.
pub struct Searcher {
    regex: Regex,
    opts: Options,
}

impl Searcher {
    /// The options the searcher was made with.
    pub closed spec fn options(&self) -> Options {
        self.opts
    }

    /// The matches of the compiled pattern in a line, from left to right.
    pub closed spec fn spans(&self, line: Seq<char>) -> Seq<(usize, usize)> {
        regex_spans(self.regex, line)
    }

    /// Wraps the outcome of a compilation: a compiled pattern becomes a
    /// searcher, a refusal an `InvalidPattern` with the text of the error.
    pub fn from_compiled(compiled: Result<Regex, regex::Error>, opts: Options) -> (made: Result<
        Searcher,
        SearchError,
    >)
        ensures
            match compiled {
                Ok(regex) => {
                    &&& made matches Ok(searcher)
                    &&& searcher.options() == opts
                    &&& forall|line: Seq<char>| #[trigger]
                        searcher.spans(line) == regex_spans(regex, line)
                },
                Err(cause) => {
                    &&& made matches Err(error)
                    &&& error@ == Failure::InvalidPattern(regex_error_text(cause))
                },
            },
    {
        match compiled {
            Ok(regex) => Ok(Searcher { regex, opts }),
            Err(cause) => Err(SearchError::InvalidPattern(error_text(&cause))),
        }
    }

    /// Compiles `pattern`, once, for a search with the given options. With
    /// `case_ignore` set the pattern is compiled behind the directive `(?i)`.
    /// A pattern that does not compile gives `InvalidPattern`.
    pub fn new(pattern: &str, opts: Options) -> (made: Result<Searcher, SearchError>)
        ensures
            match made {
                Ok(searcher) => {
                    &&& regex_refusal(effective_pattern(pattern@, opts.case_ignore)) is None
                    &&& searcher.options() == opts
                    &&& forall|line: Seq<char>| #[trigger]
                        searcher.spans(line) == pattern_spans(
                            effective_pattern(pattern@, opts.case_ignore),
                            line,
                        )
                },
                Err(error) => {
                    &&& error@ is InvalidPattern
                    &&& regex_refusal(effective_pattern(pattern@, opts.case_ignore)) == Some(
                        error@.message(),
                    )
                },
            },
    {
        let text = effective_pattern_text(pattern, opts.case_ignore);
        Searcher::from_compiled(Regex::new(text.as_str()), opts)
    }

    /// Searches one line. A line without a match gives nothing; any other
    /// gives one result with the line, its number and every match.
    pub fn search_line(&self, line_number: usize, line: String) -> (found: Option<SearchResult>)
        ensures
            found_view(found) == line_match(line_number as nat, line@, self.spans(line@)),
            found matches Some(result) ==> result@.wf(),
    {
        let spans = find_spans(&self.regex, line.as_str());
        SearchResult::from_matches(line_number, line, spans)
    }

    /// The output style that the options of this searcher select.
    pub fn output_format(&self) -> (format: OutputFormat)
        ensures
            format == resolve_format(self.options()),
    {
        self.opts.output_format()
    }
}

} // verus!
