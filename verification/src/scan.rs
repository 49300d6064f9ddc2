//! A scan: the lines of one source, fed to a searcher one at a time.

use crate::error::{Failure, SearchError};
use crate::matches::{line_match, LineMatch, SearchResult};
use crate::options::resolve_format;
use crate::searcher::Searcher;
use vstd::prelude::*;

verus! {

/// One read of a line source: a line, or the text of a failure.
pub type LineRead = Result<Seq<char>, Seq<char>>;

/// Where a scan stands.
pub struct ScanState {
    /// How many lines were read so far. The next line gets this number plus 1.
    pub lines_read: nat,
    /// How many of them held a match.
    pub matched: nat,
    /// Whether the source has failed. A halted scan yields nothing more.
    pub halted: bool,
}

/// What one step of a scan leads to.
pub struct ScanStep {
    /// The state after the step.
    pub next: ScanState,
    /// What the step hands to the caller, if anything.
    pub yielded: Option<Result<LineMatch, Failure>>,
}

/// The state of a scan before its first line.
pub open spec fn fresh_scan() -> ScanState {
    ScanState { lines_read: 0, matched: 0, halted: false }
}

/// One step of a scan: what follows from the next read of the source, which
/// is either a line or the text of a failure.
///
/// A halted scan stays as it is and yields nothing. A failed read halts the
/// scan and is yielded as a `LineReadFailure`. A line counts as read whether
/// or not it matches; it is yielded as a result, under its number, only where
/// the pattern is found in it.
pub open spec fn scan_step(searcher: Searcher, state: ScanState, read: LineRead) -> ScanStep {
    if state.halted {
        ScanStep { next: state, yielded: None }
    } else {
        match read {
            Err(cause) => ScanStep {
                next: ScanState {
                    lines_read: state.lines_read,
                    matched: state.matched,
                    halted: true,
                },
                yielded: Some(Err(Failure::LineReadFailure(cause))),
            },
            Ok(line) => {
                let number = state.lines_read + 1;
                match line_match(number, line, searcher.spans(line)) {
                    None => ScanStep {
                        next: ScanState {
                            lines_read: number,
                            matched: state.matched,
                            halted: false,
                        },
                        yielded: None,
                    },
                    Some(found) => ScanStep {
                        next: ScanState {
                            lines_read: number,
                            matched: state.matched + 1,
                            halted: false,
                        },
                        yielded: Some(Ok(found)),
                    },
                }
            },
        }
    }
}

/// The reads of a source in order.
pub type Reads = Seq<LineRead>;

/// The state of a fresh scan after it was fed `reads` in order.
pub open spec fn scan_after(searcher: Searcher, reads: Reads) -> ScanState
    decreases reads.len(),
{
    if reads.len() == 0 {
        fresh_scan()
    } else {
        scan_step(searcher, scan_after(searcher, reads.drop_last()), reads.last()).next
    }
}

/// What a fresh scan that is fed `reads` in order yields for the read at
/// position `k`.
pub open spec fn scan_yield(searcher: Searcher, reads: Reads, k: int) -> Option<
    Result<LineMatch, Failure>,
> {
    scan_step(searcher, scan_after(searcher, reads.take(k)), reads[k]).yielded
}

/// A read of the source as plain values.
pub open spec fn read_view(read: Result<String, String>) -> LineRead {
    match read {
        Ok(line) => Ok(line@),
        Err(cause) => Err(cause@),
    }
}

/// What a step hands out, as plain values.
pub open spec fn yield_view(yielded: Option<Result<SearchResult, SearchError>>) -> Option<
    Result<LineMatch, Failure>,
> {
    match yielded {
        None => None,
        Some(Ok(result)) => Some(Ok(result@)),
        Some(Err(error)) => Some(Err(error@)),
    }
}

/// A scan in progress. It holds no line and no result: the caller reads the
/// source, feeds each read to the scan, and gets back what that read yields.
pub struct SearchIter<'a> {
    searcher: &'a Searcher,
    lines_read: usize,
    matched: usize,
    halted: bool,
    history: Ghost<Reads>,
}

impl<'a> View for SearchIter<'a> {
    type V = ScanState;

    closed spec fn view(&self) -> ScanState {
        ScanState {
            lines_read: self.lines_read as nat,
            matched: self.matched as nat,
            halted: self.halted,
        }
    }
}

impl<'a> SearchIter<'a> {
    #[verifier::type_invariant]
    spec fn follows_history(self) -> bool {
        &&& self.matched <= self.lines_read
        &&& self@ == scan_after(*self.searcher, self.history@)
    }

    /// The searcher that the scan runs with.
    pub closed spec fn searcher(&self) -> Searcher {
        *self.searcher
    }

    /// Everything the scan was fed, in order.
    pub closed spec fn history(&self) -> Reads {
        self.history@
    }

    /// A scan that has read nothing yet.
    pub fn new(searcher: &'a Searcher) -> (scan: SearchIter<'a>)
        ensures
            scan.searcher() == *searcher,
            scan.history() == Reads::empty(),
            scan@ == fresh_scan(),
    {
        SearchIter {
            searcher,
            lines_read: 0,
            matched: 0,
            halted: false,
            history: Ghost(Seq::empty()),
        }
    }

    /// How many lines the scan has read.
    pub fn lines_read(&self) -> (count: usize)
        ensures
            count == self@.lines_read,
            self@ == scan_after(self.searcher(), self.history()),
    {
        proof {
            use_type_invariant(self);
        }
        self.lines_read
    }

    /// How many of the lines read held a match.
    pub fn matched_lines(&self) -> (count: usize)
        ensures
            count == self@.matched,
            count <= self@.lines_read,
            self@ == scan_after(self.searcher(), self.history()),
    {
        proof {
            use_type_invariant(self);
        }
        self.matched
    }

    /// Whether the source has failed and the scan is over.
    pub fn is_halted(&self) -> (halted: bool)
        ensures
            halted == self@.halted,
            self@ == scan_after(self.searcher(), self.history()),
    {
        proof {
            use_type_invariant(self);
        }
        self.halted
    }

    /// Takes the next read of the source and gives back what it yields: a
    /// result for a line with a match, an error for a failed read, nothing
    /// otherwise.
    ///
    /// The contract says this twice: as one step from the state the scan was
    /// in, and as the next position in the run of all reads since the scan
    /// began, which is what the lemmas below speak of. The line counter must
    /// have room for one more line.
    pub fn feed(&mut self, read: Result<String, String>) -> (yielded: Option<
        Result<SearchResult, SearchError>,
    >)
        requires
            !old(self)@.halted ==> old(self)@.lines_read < usize::MAX,
        ensures
            final(self).searcher() == old(self).searcher(),
            final(self).history() == old(self).history().push(read_view(read)),
            final(self)@ == scan_step(old(self).searcher(), old(self)@, read_view(read)).next,
            yield_view(yielded) == scan_step(
                old(self).searcher(),
                old(self)@,
                read_view(read),
            ).yielded,
            final(self)@ == scan_after(final(self).searcher(), final(self).history()),
            yield_view(yielded) == scan_yield(
                final(self).searcher(),
                final(self).history(),
                old(self).history().len() as int,
            ),
            yielded matches Some(Ok(result)) ==> result@.wf(),
    {
        proof {
            use_type_invariant(&*self);
        }
        let ghost fed = self.history@.push(read_view(read));
        proof {
            assert(fed.drop_last() =~= self.history@);
            assert(fed.take(self.history@.len() as int) =~= self.history@);
        }
        if self.halted {
            self.history = Ghost(fed);
            return None;
        }
        match read {
            Err(cause) => {
                *self = SearchIter {
                    searcher: self.searcher,
                    lines_read: self.lines_read,
                    matched: self.matched,
                    halted: true,
                    history: Ghost(fed),
                };
                Some(Err(SearchError::LineReadFailure(cause)))
            },
            Ok(line) => {
                let lines_read = self.lines_read + 1;
                let found = self.searcher.search_line(lines_read, line);
                let matched = if found.is_some() {
                    self.matched + 1
                } else {
                    self.matched
                };
                *self = SearchIter {
                    searcher: self.searcher,
                    lines_read,
                    matched,
                    halted: false,
                    history: Ghost(fed),
                };
                match found {
                    None => None,
                    Some(result) => Some(Ok(result)),
                }
            },
        }
    }
}

/// What is written for one step of a scan in the output style of its
/// searcher: the lines of the result, if the step yields one.
pub open spec fn step_output(searcher: Searcher, step: ScanStep) -> Seq<Seq<char>> {
    match step.yielded {
        Some(Ok(found)) => found.output_lines(resolve_format(searcher.options())),
        _ => Seq::empty(),
    }
}

impl<'a> SearchIter<'a> {
    /// Takes the next read of the source and appends to `out` the lines that
    /// are to be written for it, in the output style of the searcher. A
    /// failed read is returned as the error; nothing is written for it.
    pub fn format_next(&mut self, read: Result<String, String>, out: &mut Vec<String>) -> (done:
        Result<(), SearchError>)
        requires
            !old(self)@.halted ==> old(self)@.lines_read < usize::MAX,
        ensures
            final(self).searcher() == old(self).searcher(),
            final(self).history() == old(self).history().push(read_view(read)),
            final(self)@ == scan_step(old(self).searcher(), old(self)@, read_view(read)).next,
            final(self)@ == scan_after(final(self).searcher(), final(self).history()),
            final(out).deep_view() == old(out).deep_view() + step_output(
                old(self).searcher(),
                scan_step(old(self).searcher(), old(self)@, read_view(read)),
            ),
            match scan_step(old(self).searcher(), old(self)@, read_view(read)).yielded {
                Some(Err(failure)) => done matches Err(error) && error@ == failure,
                _ => done is Ok,
            },
    {
        let format = self.searcher.output_format();
        match self.feed(read) {
            None => {
                assert(out.deep_view() =~= old(out).deep_view() + Seq::<Seq<char>>::empty());
                Ok(())
            },
            Some(Ok(found)) => {
                found.format_to(out, &format);
                Ok(())
            },
            Some(Err(error)) => {
                assert(out.deep_view() =~= old(out).deep_view() + Seq::<Seq<char>>::empty());
                Err(error)
            },
        }
    }
}

impl Searcher {
    /// Starts a scan with this searcher.
    pub fn search<'a>(&'a self) -> (scan: SearchIter<'a>)
        ensures
            scan.searcher() == *self,
            scan.history() == Reads::empty(),
            scan@ == fresh_scan(),
    {
        SearchIter::new(self)
    }
}

// What holds of every scan, stated of all the reads that a fresh scan is fed.

/// Every read up to position `end`, exclusive, is a line.
pub open spec fn all_lines(reads: Reads, end: int) -> bool {
    forall|j: int| 0 <= j < end ==> (#[trigger] reads[j]) is Ok
}

/// How many of the reads are lines in which the pattern is found.
pub open spec fn lines_with_match(searcher: Searcher, reads: Reads) -> nat
    decreases reads.len(),
{
    if reads.len() == 0 {
        0
    } else {
        let before = lines_with_match(searcher, reads.drop_last());
        match reads.last() {
            Ok(line) => if searcher.spans(line).len() > 0 {
                before + 1
            } else {
                before
            },
            Err(_) => before,
        }
    }
}

/// How many results a fresh scan yields while it is fed `reads`.
pub open spec fn results_yielded(searcher: Searcher, reads: Reads) -> nat
    decreases reads.len(),
{
    if reads.len() == 0 {
        0
    } else {
        let before = results_yielded(searcher, reads.drop_last());
        if scan_yield(searcher, reads, reads.len() - 1) matches Some(Ok(_)) {
            before + 1
        } else {
            before
        }
    }
}

/// While the source does not fail, every read counts as one line and the
/// scan goes on; the lines that matched are exactly the lines in which the
/// pattern is found.
pub proof fn lemma_scan_of_lines(searcher: Searcher, reads: Reads)
    requires
        all_lines(reads, reads.len() as int),
    ensures
        scan_after(searcher, reads) == (ScanState {
            lines_read: reads.len(),
            matched: lines_with_match(searcher, reads),
            halted: false,
        }),
    decreases reads.len(),
{
    if reads.len() > 0 {
        let before = reads.drop_last();
        assert(all_lines(before, before.len() as int)) by {
            assert forall|j: int| 0 <= j < before.len() implies (#[trigger] before[j]) is Ok by {
                assert(before[j] == reads[j]);
            }
        }
        lemma_scan_of_lines(searcher, before);
        assert(reads.last() == reads[reads.len() - 1]);
    }
}

/// Line numbers go up by one with every line read, whether or not the line
/// matches: while the source does not fail, the line at position `k` is
/// yielded exactly if the pattern is found in it, and then under the number
/// `k + 1`, with its own text and every match in it.
pub proof fn lemma_yield_of_line(searcher: Searcher, reads: Reads, k: int)
    requires
        0 <= k < reads.len(),
        all_lines(reads, k + 1),
    ensures
        scan_after(searcher, reads.take(k)).lines_read == k,
        scan_yield(searcher, reads, k) is Some <==> searcher.spans(reads[k]->Ok_0).len() > 0,
        scan_yield(searcher, reads, k) is Some ==> scan_yield(searcher, reads, k) == Some(
            Ok::<LineMatch, Failure>(
                LineMatch {
                    line_number: (k + 1) as nat,
                    line: reads[k]->Ok_0,
                    spans: searcher.spans(reads[k]->Ok_0),
                },
            ),
        ),
{
    let before = reads.take(k);
    assert(all_lines(before, before.len() as int)) by {
        assert forall|j: int| 0 <= j < before.len() implies (#[trigger] before[j]) is Ok by {
            assert(before[j] == reads[j]);
        }
    }
    lemma_scan_of_lines(searcher, before);
    assert(reads[k] is Ok);
}

/// The number of results yielded is the number of lines in which the pattern
/// is found: while the source does not fail, no such line is left out and no
/// other line is yielded.
pub proof fn lemma_results_are_lines_with_match(searcher: Searcher, reads: Reads)
    requires
        all_lines(reads, reads.len() as int),
    ensures
        results_yielded(searcher, reads) == lines_with_match(searcher, reads),
    decreases reads.len(),
{
    if reads.len() > 0 {
        let before = reads.drop_last();
        assert(all_lines(before, before.len() as int)) by {
            assert forall|j: int| 0 <= j < before.len() implies (#[trigger] before[j]) is Ok by {
                assert(before[j] == reads[j]);
            }
        }
        lemma_results_are_lines_with_match(searcher, before);
        lemma_yield_of_line(searcher, reads, reads.len() - 1);
        assert(reads.last() == reads[reads.len() - 1]);
    }
}

/// The count of matching lines that a scan keeps is the number of results it
/// has yielded, whatever was read.
pub proof fn lemma_matched_counts_results(searcher: Searcher, reads: Reads)
    ensures
        scan_after(searcher, reads).matched == results_yielded(searcher, reads),
    decreases reads.len(),
{
    if reads.len() > 0 {
        let before = reads.drop_last();
        lemma_matched_counts_results(searcher, before);
        assert(reads.take(reads.len() - 1) =~= before);
        assert(reads.last() == reads[reads.len() - 1]);
    }
}

/// Once halted, a scan stays halted.
proof fn lemma_halted_stays(searcher: Searcher, reads: Reads, k: int, n: int)
    requires
        0 <= k <= n <= reads.len(),
        scan_after(searcher, reads.take(k)).halted,
    ensures
        scan_after(searcher, reads.take(n)).halted,
    decreases n - k,
{
    if k < n {
        lemma_halted_stays(searcher, reads, k, n - 1);
        assert(reads.take(n).drop_last() =~= reads.take(n - 1));
    }
}

/// A failed read ends the scan: the first failure of the source is yielded
/// as a `LineReadFailure` with its text, the scan is halted from then on, it
/// yields nothing for any later read, and no other read yields an error.
pub proof fn lemma_read_failure_halts(searcher: Searcher, reads: Reads, k: int)
    requires
        0 <= k < reads.len(),
        all_lines(reads, k),
        reads[k] is Err,
    ensures
        scan_yield(searcher, reads, k) == Some(
            Err::<LineMatch, Failure>(Failure::LineReadFailure(reads[k]->Err_0)),
        ),
        forall|j: int| k < j < reads.len() ==> #[trigger] scan_yield(searcher, reads, j) is None,
        forall|j: int|
            0 <= j < reads.len() && j != k ==> !(#[trigger] scan_yield(searcher, reads, j) matches Some(
                Err(_),
            )),
        scan_after(searcher, reads).halted,
{
    let before = reads.take(k);
    assert(all_lines(before, before.len() as int)) by {
        assert forall|j: int| 0 <= j < before.len() implies (#[trigger] before[j]) is Ok by {
            assert(before[j] == reads[j]);
        }
    }
    lemma_scan_of_lines(searcher, before);
    assert(reads.take(k + 1).drop_last() =~= before);
    assert(reads.take(k + 1).last() == reads[k]);
    assert(scan_after(searcher, reads.take(k + 1)).halted);
    assert forall|j: int| k < j < reads.len() implies #[trigger] scan_yield(
        searcher,
        reads,
        j,
    ) is None by {
        lemma_halted_stays(searcher, reads, k + 1, j);
    }
    assert forall|j: int| 0 <= j < k implies !(#[trigger] scan_yield(searcher, reads, j) matches Some(
        Err(_),
    )) by {
        lemma_yield_of_line(searcher, reads, j);
    }
    lemma_halted_stays(searcher, reads, k + 1, reads.len() as int);
    assert(reads.take(reads.len() as int) =~= reads);
}

} // verus!
