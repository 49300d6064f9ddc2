//! The result of searching one line, and how it is written out.

use crate::options::OutputFormat;
use crate::text::{
    decimal, is_text_range, push_decimal, slice_text, text_in_range, trim_line_end,
    without_line_end,
};
use vstd::prelude::*;
use vstd::string::*;
use vstd::utf8::encode_utf8;

verus! {

/// Every span is a range of byte offsets into `line` that begins and ends
/// between two characters.
pub open spec fn spans_lie_in(line: Seq<char>, spans: Seq<(usize, usize)>) -> bool {
    forall|i: int|
        #![trigger spans[i]]
        0 <= i < spans.len() ==> is_text_range(line, spans[i].0 as int, spans[i].1 as int)
}

/// The spans come from left to right and none reaches into the next.
pub open spec fn spans_ascend(spans: Seq<(usize, usize)>) -> bool {
    forall|i: int, j: int|
        #![trigger spans[i], spans[j]]
        0 <= i < j < spans.len() ==> spans[i].1 <= spans[j].0
}

/// A line in which the pattern was found.
#[derive(Debug)]
pub struct SearchResult {
    /// The number of the line in its source, counted from 1.
    pub line_number: usize,
    /// The text of the line.
    pub line: String,
    /// Where the pattern matched: half-open ranges of byte offsets into `line`.
    pub matches: Vec<(usize, usize)>,
}

/// A `SearchResult` as plain values.
pub struct LineMatch {
    pub line_number: nat,
    pub line: Seq<char>,
    pub spans: Seq<(usize, usize)>,
}

impl View for SearchResult {
    type V = LineMatch;

    open spec fn view(&self) -> LineMatch {
        LineMatch { line_number: self.line_number as nat, line: self.line@, spans: self.matches@ }
    }
}

impl LineMatch {
    /// What the engine guarantees of every result it hands out: there is a
    /// match, every span can be cut out of the line, and the spans come in
    /// order without overlap.
    pub open spec fn wf(self) -> bool {
        &&& self.spans.len() > 0
        &&& spans_lie_in(self.line, self.spans)
        &&& spans_ascend(self.spans)
    }

    /// The text of the `i`-th match.
    pub open spec fn match_text(self, i: int) -> Seq<char> {
        text_in_range(self.line, self.spans[i].0 as int, self.spans[i].1 as int)
    }

    /// The text of every match, in the order of the spans.
    pub open spec fn match_texts(self) -> Seq<Seq<char>> {
        Seq::new(self.spans.len(), |i: int| self.match_text(i))
    }

    /// The line behind its number: the number in decimal, a colon, a blank,
    /// and the line without the terminators at its end.
    pub open spec fn numbered_line(self) -> Seq<char> {
        decimal(self.line_number) + seq![':', ' '] + without_line_end(self.line)
    }

    /// The lines that are written for this result in the given style.
    pub open spec fn output_lines(self, format: OutputFormat) -> Seq<Seq<char>> {
        match format {
            OutputFormat::CountOnly => Seq::empty(),
            OutputFormat::MatchOnly => self.match_texts(),
            OutputFormat::LineNumbered => seq![self.numbered_line()],
            OutputFormat::FullLine => seq![without_line_end(self.line)],
        }
    }
}

/// How much is written for a result: nothing where lines are only counted,
/// one line per match where only matches are printed, each the text of its
/// match, and exactly one line in the two styles that print the line.
pub proof fn lemma_output_lines(found: LineMatch, format: OutputFormat)
    ensures
        format == OutputFormat::CountOnly ==> found.output_lines(format).len() == 0,
        format == OutputFormat::MatchOnly ==> found.output_lines(format).len()
            == found.spans.len(),
        format == OutputFormat::MatchOnly ==> forall|i: int|
            0 <= i < found.spans.len() ==> #[trigger] found.output_lines(format)[i]
                == text_in_range(found.line, found.spans[i].0 as int, found.spans[i].1 as int),
        format == OutputFormat::LineNumbered || format == OutputFormat::FullLine
            ==> found.output_lines(format).len() == 1,
{
}

/// The result for a line with the given spans: none where the pattern was not
/// found.
pub open spec fn line_match(line_number: nat, line: Seq<char>, spans: Seq<(usize, usize)>) -> Option<
    LineMatch,
> {
    if spans.len() == 0 {
        None
    } else {
        Some(LineMatch { line_number, line, spans })
    }
}

/// An optional result as plain values.
pub open spec fn found_view(found: Option<SearchResult>) -> Option<LineMatch> {
    match found {
        Some(result) => Some(result@),
        None => None,
    }
}

impl SearchResult {
    /// Bundles a line with the spans found in it, or gives nothing where no
    /// span was found.
    pub fn from_matches(line_number: usize, line: String, matches: Vec<(usize, usize)>) -> (found:
        Option<SearchResult>)
        ensures
            found_view(found) == line_match(line_number as nat, line@, matches@),
    {
        if matches.len() == 0 {
            None
        } else {
            Some(SearchResult { line_number, line, matches })
        }
    }

    /// Whether every span can be cut out of the line: it lies within the
    /// line and begins and ends between two characters.
    pub fn spans_fit(&self) -> (fit: bool)
        ensures
            fit == spans_lie_in(self@.line, self@.spans),
    {
        let line = self.line.as_str();
        let bytes = line.as_bytes();
        let mut i: usize = 0;
        while i < self.matches.len()
            invariant
                line@ == self@.line,
                bytes@ == encode_utf8(line@),
                i <= self.matches.len(),
                forall|k: int|
                    #![trigger self@.spans[k]]
                    0 <= k < i ==> is_text_range(
                        self@.line,
                        self@.spans[k].0 as int,
                        self@.spans[k].1 as int,
                    ),
            decreases self.matches.len() - i,
        {
            let (start, end) = self.matches[i];
            if !(start <= end && end <= bytes.len() && line.is_char_boundary(start)
                && line.is_char_boundary(end)) {
                assert(!is_text_range(
                    self@.line,
                    self@.spans[i as int].0 as int,
                    self@.spans[i as int].1 as int,
                ));
                return false;
            }
            i = i + 1;
        }
        true
    }

    /// The text of every match, in the order of the spans.
    pub fn match_texts(&self) -> (texts: Vec<&str>)
        requires
            spans_lie_in(self@.line, self@.spans),
        ensures
            texts@.len() == self@.spans.len(),
            texts.deep_view() == self@.match_texts(),
    {
        let mut texts: Vec<&str> = Vec::new();
        let mut i: usize = 0;
        while i < self.matches.len()
            invariant
                spans_lie_in(self@.line, self@.spans),
                i <= self.matches.len(),
                texts@.len() == i,
                forall|k: int| 0 <= k < i ==> (#[trigger] texts@[k])@ == self@.match_text(k),
            decreases self.matches.len() - i,
        {
            let (start, end) = self.matches[i];
            texts.push(slice_text(self.line.as_str(), start, end));
            i = i + 1;
        }
        assert(texts.deep_view() =~= self@.match_texts());
        texts
    }

    /// Appends to `out` the lines that are written for this result in the
    /// given style.
    pub fn format_to(&self, out: &mut Vec<String>, format: &OutputFormat)
        requires
            *format == OutputFormat::MatchOnly ==> spans_lie_in(self@.line, self@.spans),
        ensures
            final(out)@.len() == old(out)@.len() + self@.output_lines(*format).len(),
            final(out).deep_view() == old(out).deep_view() + self@.output_lines(*format),
    {
        match format {
            OutputFormat::CountOnly => {
                assert(out.deep_view() =~= old(out).deep_view() + self@.output_lines(*format));
            },
            OutputFormat::MatchOnly => {
                let texts = self.match_texts();
                let mut i: usize = 0;
                while i < texts.len()
                    invariant
                        i <= texts.len(),
                        out.deep_view() == old(out).deep_view() + texts.deep_view().take(i as int),
                    decreases texts.len() - i,
                {
                    let ghost before = out.deep_view();
                    let text = texts[i].to_owned();
                    out.push(text);
                    assert(out.deep_view() =~= before.push(texts.deep_view()[i as int]));
                    assert(texts.deep_view().take(i + 1) =~= texts.deep_view().take(i as int).push(
                        texts.deep_view()[i as int],
                    ));
                    i = i + 1;
                }
                assert(texts.deep_view().take(i as int) =~= texts.deep_view());
            },
            OutputFormat::LineNumbered => {
                let mut text = String::new();
                push_decimal(&mut text, self.line_number);
                proof {
                    reveal_strlit(": ");
                }
                text.append(": ");
                text.append(trim_line_end(self.line.as_str()));
                assert(text@ =~= self@.numbered_line());
                out.push(text);
                assert(out.deep_view() =~= old(out).deep_view() + self@.output_lines(*format));
            },
            OutputFormat::FullLine => {
                out.push(trim_line_end(self.line.as_str()).to_owned());
                assert(out.deep_view() =~= old(out).deep_view() + self@.output_lines(*format));
            },
        }
    }
}

} // verus!
