//! The options a search is configured with, and the output style they select.

use vstd::prelude::*;
use vstd::std_specs::convert::FromSpecImpl;

verus! {

/// How a matching line is reported.
#[derive(Debug, Clone, Copy, PartialEq, Eq, Structural)]
pub enum OutputFormat {
    /// Nothing is printed per line; matching lines are only counted.
    CountOnly,
    /// Each matched piece of text is printed on a line of its own.
    MatchOnly,
    /// The whole line is printed behind its line number.
    LineNumbered,
    /// The whole line is printed as it is.
    FullLine,
}

/// The switches a caller may set. Any combination is legal.
#[derive(Debug, Clone, Copy)]
pub struct Options {
    /// Print the line number in front of each matching line.
    pub show_line_number: bool,
    /// Print no lines, only count them.
    pub count_only: bool,
    /// Match letters without regard to case.
    pub case_ignore: bool,
    /// Print only the matched text, not the line around it.
    pub match_only: bool,
}

/// The one output style a set of options selects. The first switch that is
/// set wins, in the order `count_only`, `match_only`, `show_line_number`; with
/// none of them set the full line is printed.
pub open spec fn resolve_format(opts: Options) -> OutputFormat {
    if opts.count_only {
        OutputFormat::CountOnly
    } else if opts.match_only {
        OutputFormat::MatchOnly
    } else if opts.show_line_number {
        OutputFormat::LineNumbered
    } else {
        OutputFormat::FullLine
    }
}

impl<'a> From<&'a Options> for OutputFormat {
    fn from(opts: &'a Options) -> (format: OutputFormat) {
        if opts.count_only {
            OutputFormat::CountOnly
        } else if opts.match_only {
            OutputFormat::MatchOnly
        } else if opts.show_line_number {
            OutputFormat::LineNumbered
        } else {
            OutputFormat::FullLine
        }
    }
}

impl<'a> FromSpecImpl<&'a Options> for OutputFormat {
    open spec fn obeys_from_spec() -> bool {
        true
    }

    open spec fn from_spec(opts: &'a Options) -> OutputFormat {
        resolve_format(*opts)
    }
}

impl Default for Options {
    fn default() -> (opts: Options)
        ensures
            !opts.show_line_number,
            !opts.count_only,
            !opts.case_ignore,
            !opts.match_only,
    {
        Options { show_line_number: false, count_only: false, case_ignore: false, match_only: false }
    }
}

impl Options {
    /// The output style these options select.
    pub fn output_format(&self) -> (format: OutputFormat)
        ensures
            format == resolve_format(*self),
    {
        OutputFormat::from(self)
    }
}

/// The switches are tried in a fixed order and the first one that is set
/// decides: counting wins over everything, then printing matches only, then
/// line numbers. Ignoring case plays no part in the choice.
pub proof fn lemma_format_priority(opts: Options)
    ensures
        opts.count_only ==> resolve_format(opts) == OutputFormat::CountOnly,
        !opts.count_only && opts.match_only ==> resolve_format(opts) == OutputFormat::MatchOnly,
        !opts.count_only && !opts.match_only && opts.show_line_number ==> resolve_format(opts)
            == OutputFormat::LineNumbered,
        !opts.count_only && !opts.match_only && !opts.show_line_number ==> resolve_format(opts)
            == OutputFormat::FullLine,
        resolve_format(opts) == resolve_format(
            Options {
                show_line_number: opts.show_line_number,
                count_only: opts.count_only,
                case_ignore: !opts.case_ignore,
                match_only: opts.match_only,
            },
        ),
{
}

} // verus!
