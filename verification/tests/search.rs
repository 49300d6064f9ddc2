use mrustgrep::{Options, OutputFormat, SearchError, SearchResult, Searcher};

fn plain() -> Options {
    Options::default()
}

fn ignoring_case() -> Options {
    Options { show_line_number: false, count_only: false, case_ignore: true, match_only: false }
}

fn searcher(pattern: &str) -> Searcher {
    Searcher::new(pattern, plain()).unwrap()
}

fn spans_in(pattern: &str, line: &str) -> Vec<(usize, usize)> {
    match searcher(pattern).search_line(1, line.to_string()) {
        Some(found) => found.matches,
        None => Vec::new(),
    }
}

/// Feeds the reads to a fresh scan and collects what each one yields.
fn scan(engine: &Searcher, reads: Vec<Result<String, String>>) -> Vec<Option<Result<SearchResult, SearchError>>> {
    let mut run = engine.search();
    let mut yields = Vec::new();
    for read in reads {
        assert!(run.is_halted() || run.lines_read() < usize::MAX);
        yields.push(run.feed(read));
    }
    yields
}

fn lines(texts: &[&str]) -> Vec<Result<String, String>> {
    texts.iter().map(|text| Ok(text.to_string())).collect()
}

fn numbers(yields: &[Option<Result<SearchResult, SearchError>>]) -> Vec<usize> {
    let mut found = Vec::new();
    for yielded in yields {
        if let Some(Ok(result)) = yielded {
            found.push(result.line_number);
        }
    }
    found
}

#[test]
fn valid_pattern_compiles() {
    assert!(Searcher::new("a+b", plain()).is_ok());
    assert!(Searcher::new("", plain()).is_ok());
}

#[test]
fn unbalanced_parenthesis_is_an_invalid_pattern() {
    match Searcher::new("foo(bar", plain()) {
        Err(error) => {
            assert!(error.is_invalid_pattern());
            assert!(!error.is_line_read_failure());
            assert!(matches!(error, SearchError::InvalidPattern(_)));
        }
        Ok(_) => panic!("the pattern must be refused"),
    }
}

#[test]
fn invalid_pattern_carries_the_text_of_the_cause() {
    let cause = regex::Regex::new("foo(bar").unwrap_err().to_string();
    match Searcher::new("foo(bar", plain()) {
        Err(error) => {
            assert_eq!(error.message(), cause);
            assert!(error.message().contains("unclosed group"));
            assert_eq!(error, SearchError::InvalidPattern(cause));
        }
        Ok(_) => panic!("the pattern must be refused"),
    }
}

#[test]
fn pattern_over_the_size_limit_is_an_invalid_pattern() {
    match Searcher::new(r"\w{1000}", plain()) {
        Err(error) => assert!(error.is_invalid_pattern()),
        Ok(_) => panic!("the pattern must be refused"),
    }
}

#[test]
fn invalid_pattern_is_invalid_with_case_ignored_too() {
    assert!(matches!(Searcher::new("[a-", ignoring_case()), Err(SearchError::InvalidPattern(_))));
}

#[test]
fn from_compiled_wraps_both_outcomes() {
    let made = Searcher::from_compiled(regex::Regex::new("a+"), plain()).unwrap();
    assert_eq!(made.search_line(1, "baaab".to_string()).unwrap().matches, vec![(1, 4)]);
    let cause = regex::Regex::new("(").unwrap_err();
    let text = cause.to_string();
    match Searcher::from_compiled(Err(cause), plain()) {
        Err(error) => assert_eq!(error, SearchError::InvalidPattern(text)),
        Ok(_) => panic!("an error must stay an error"),
    }
}

#[test]
fn effective_pattern_is_the_pattern_itself() {
    assert_eq!(mrustgrep::searcher::effective_pattern_text("a.c", false), "a.c");
}

#[test]
fn effective_pattern_with_case_ignored_has_the_directive_in_front() {
    assert_eq!(mrustgrep::searcher::effective_pattern_text("a.c", true), "(?i)a.c");
    assert_eq!(mrustgrep::searcher::effective_pattern_text("", true), "(?i)");
}

#[test]
fn searcher_resolves_its_output_format() {
    let opts = Options { show_line_number: true, count_only: false, case_ignore: false, match_only: false };
    assert_eq!(Searcher::new("x", opts).unwrap().output_format(), OutputFormat::LineNumbered);
    let both = Options { show_line_number: false, count_only: true, case_ignore: false, match_only: true };
    assert_eq!(Searcher::new("x", both).unwrap().output_format(), OutputFormat::CountOnly);
}

#[test]
fn line_without_match_gives_nothing() {
    assert!(searcher("x").search_line(1, "abc".to_string()).is_none());
}

#[test]
fn span_of_a_repetition() {
    let found = searcher("a+").search_line(1, "baaab".to_string()).unwrap();
    assert_eq!(found.matches, vec![(1, 4)]);
    assert_eq!(found.match_texts(), vec!["aaa"]);
    assert_eq!(found.line, "baaab");
    assert_eq!(found.line_number, 1);
}

#[test]
fn matches_do_not_overlap() {
    assert_eq!(spans_in("aa", "aaaa"), vec![(0, 2), (2, 4)]);
    assert_eq!(spans_in("aa", "aaaaa"), vec![(0, 2), (2, 4)]);
}

#[test]
fn matches_come_from_left_to_right() {
    assert_eq!(spans_in("[0-9]+", "a1b22c333"), vec![(1, 2), (3, 5), (6, 9)]);
}

#[test]
fn empty_matches_advance() {
    assert_eq!(spans_in("a*", "baaab"), vec![(0, 0), (1, 4), (5, 5)]);
    assert_eq!(spans_in("", "ab"), vec![(0, 0), (1, 1), (2, 2)]);
    assert_eq!(spans_in("x*", ""), vec![(0, 0)]);
}

#[test]
fn spans_are_byte_offsets() {
    let found = searcher(r"\p{Greek}+").search_line(1, "Greek: αβγδ".to_string()).unwrap();
    assert_eq!(found.matches, vec![(7, 15)]);
    assert_eq!(found.match_texts(), vec!["αβγδ"]);
}

#[test]
fn empty_matches_fall_between_characters() {
    assert_eq!(spans_in("", "αβ"), vec![(0, 0), (2, 2), (4, 4)]);
}

#[test]
fn case_is_ignored_on_request() {
    let engine = Searcher::new("ABC", ignoring_case()).unwrap();
    let found = engine.search_line(1, "xx abc yy".to_string()).unwrap();
    assert_eq!(found.matches, vec![(3, 6)]);
    assert_eq!(found.match_texts(), vec!["abc"]);
}

#[test]
fn case_counts_by_default() {
    assert!(searcher("ABC").search_line(1, "xx abc yy".to_string()).is_none());
}

#[test]
fn case_is_ignored_for_the_whole_pattern() {
    let engine = Searcher::new("ab|cd", ignoring_case()).unwrap();
    assert_eq!(engine.search_line(1, "AB CD".to_string()).unwrap().matches, vec![(0, 2), (3, 5)]);
}

#[test]
fn case_is_ignored_but_accents_are_kept() {
    let engine = Searcher::new("é", ignoring_case()).unwrap();
    assert!(engine.search_line(1, "É".to_string()).is_some());
    assert!(engine.search_line(1, "e".to_string()).is_none());
}

#[test]
fn search_line_keeps_the_given_number() {
    assert_eq!(searcher("x").search_line(4711, "x".to_string()).unwrap().line_number, 4711);
}

#[test]
fn fresh_scan_has_read_nothing() {
    let engine = searcher("x");
    let run = engine.search();
    assert_eq!(run.lines_read(), 0);
    assert_eq!(run.matched_lines(), 0);
    assert!(!run.is_halted());
}

#[test]
fn line_numbers_count_every_line_read() {
    let engine = searcher("x");
    let yields = scan(&engine, lines(&["a", "xb", "c", "xd"]));
    assert_eq!(numbers(&yields), vec![2, 4]);
    assert!(yields[0].is_none());
    assert!(yields[2].is_none());
}

#[test]
fn results_are_the_lines_with_a_match() {
    let engine = searcher("o+");
    let texts = ["foo", "bar", "", "boo hoo", "baz", "o"];
    let yields = scan(&engine, lines(&texts));
    let expected = texts.iter().filter(|text| text.contains('o')).count();
    assert_eq!(numbers(&yields).len(), expected);
    assert_eq!(numbers(&yields), vec![1, 4, 6]);
    for (position, yielded) in yields.iter().enumerate() {
        assert_eq!(yielded.is_some(), texts[position].contains('o'));
    }
}

#[test]
fn scan_yields_line_and_spans() {
    let engine = searcher("o+");
    let yields = scan(&engine, lines(&["bar", "boo hoo"]));
    match &yields[1] {
        Some(Ok(found)) => {
            assert_eq!(found.line_number, 2);
            assert_eq!(found.line, "boo hoo");
            assert_eq!(found.matches, vec![(1, 3), (5, 7)]);
        }
        _ => panic!("the second line matches"),
    }
}

#[test]
fn scan_counts_lines_and_matches() {
    let engine = searcher("x");
    let mut run = engine.search();
    for text in ["a", "xb", "c", "xd", "e"] {
        run.feed(Ok(text.to_string()));
    }
    assert_eq!(run.lines_read(), 5);
    assert_eq!(run.matched_lines(), 2);
    assert!(!run.is_halted());
}

#[test]
fn matched_lines_are_lines_not_spans() {
    let engine = searcher("x");
    let mut run = engine.search();
    run.feed(Ok("xxx".to_string()));
    run.feed(Ok("x x".to_string()));
    assert_eq!(run.matched_lines(), 2);
}

#[test]
fn scan_of_no_lines_yields_nothing() {
    let engine = searcher("x");
    assert!(scan(&engine, Vec::new()).is_empty());
}

#[test]
fn read_failure_is_yielded_as_an_error() {
    let engine = searcher("x");
    let mut run = engine.search();
    match run.feed(Err("stream did not contain valid UTF-8".to_string())) {
        Some(Err(error)) => {
            assert!(error.is_line_read_failure());
            assert!(!error.is_invalid_pattern());
            assert_eq!(error.message(), "stream did not contain valid UTF-8");
            assert_eq!(error, SearchError::LineReadFailure("stream did not contain valid UTF-8".to_string()));
        }
        _ => panic!("a failed read must be yielded as an error"),
    }
    assert!(run.is_halted());
}

#[test]
fn read_failure_halts_the_scan() {
    let engine = searcher("x");
    let reads = vec![
        Ok("x1".to_string()),
        Ok("no".to_string()),
        Err("broken pipe".to_string()),
        Ok("x2".to_string()),
        Err("again".to_string()),
        Ok("x3".to_string()),
    ];
    let yields = scan(&engine, reads);
    assert_eq!(numbers(&yields), vec![1]);
    let failures = yields.iter().filter(|yielded| matches!(yielded, Some(Err(_)))).count();
    assert_eq!(failures, 1);
    assert!(matches!(&yields[2], Some(Err(SearchError::LineReadFailure(text))) if text == "broken pipe"));
    assert!(yields[3].is_none());
    assert!(yields[4].is_none());
    assert!(yields[5].is_none());
}

#[test]
fn halted_scan_stays_as_it_is() {
    let engine = searcher("x");
    let mut run = engine.search();
    run.feed(Ok("x".to_string()));
    run.feed(Err("gone".to_string()));
    let read = run.lines_read();
    let matched = run.matched_lines();
    assert!(run.feed(Ok("x".to_string())).is_none());
    assert_eq!(run.lines_read(), read);
    assert_eq!(run.matched_lines(), matched);
    assert!(run.is_halted());
    assert_eq!(read, 1);
    assert_eq!(matched, 1);
}

#[test]
fn two_scans_of_one_searcher_are_independent() {
    let engine = searcher("x");
    let mut first = engine.search();
    first.feed(Ok("x".to_string()));
    first.feed(Err("gone".to_string()));
    let mut second = engine.search();
    match second.feed(Ok("ax".to_string())) {
        Some(Ok(found)) => assert_eq!(found.line_number, 1),
        _ => panic!("a fresh scan starts over"),
    }
}

#[test]
fn scan_results_format_in_every_style() {
    let engine = searcher("aa");
    let mut run = engine.search();
    run.feed(Ok("nothing".to_string()));
    let found = run.feed(Ok("aaaa".to_string())).unwrap().unwrap();
    let mut out = Vec::new();
    found.format_to(&mut out, &OutputFormat::CountOnly);
    found.format_to(&mut out, &OutputFormat::MatchOnly);
    found.format_to(&mut out, &OutputFormat::LineNumbered);
    found.format_to(&mut out, &OutputFormat::FullLine);
    assert_eq!(out, vec!["aa", "aa", "2: aaaa", "aaaa"]);
}

fn numbering() -> Options {
    Options { show_line_number: true, count_only: false, case_ignore: false, match_only: false }
}

fn matching_only() -> Options {
    Options { show_line_number: true, count_only: false, case_ignore: false, match_only: true }
}

fn counting() -> Options {
    Options { show_line_number: true, count_only: true, case_ignore: false, match_only: true }
}

/// Runs a whole scan and gives what was written, the count of matching
/// lines, and the error it ended with, if any.
fn written(engine: &Searcher, reads: Vec<Result<String, String>>) -> (Vec<String>, usize, Option<SearchError>) {
    let mut run = engine.search();
    let mut out = Vec::new();
    for read in reads {
        assert!(run.is_halted() || run.lines_read() < usize::MAX);
        if let Err(error) = run.format_next(read, &mut out) {
            return (out, run.matched_lines(), Some(error));
        }
    }
    (out, run.matched_lines(), None)
}

#[test]
fn whole_scan_with_line_numbers() {
    let engine = Searcher::new("x", numbering()).unwrap();
    let (out, count, error) = written(&engine, lines(&["a", "xb", "c", "xd"]));
    assert_eq!(out, vec!["2: xb", "4: xd"]);
    assert_eq!(count, 2);
    assert!(error.is_none());
}

#[test]
fn whole_scan_with_full_lines() {
    let engine = Searcher::new("o", plain()).unwrap();
    let (out, count, error) = written(&engine, lines(&["foo\r\n", "bar", "  two  "]));
    assert_eq!(out, vec!["foo", "  two  "]);
    assert_eq!(count, 2);
    assert!(error.is_none());
}

#[test]
fn whole_scan_with_matches_only() {
    let engine = Searcher::new("[0-9]+", matching_only()).unwrap();
    let (out, count, error) = written(&engine, lines(&["a1b22", "none", "333"]));
    assert_eq!(out, vec!["1", "22", "333"]);
    assert_eq!(count, 2);
    assert!(error.is_none());
}

#[test]
fn whole_scan_that_only_counts() {
    let engine = Searcher::new("x", counting()).unwrap();
    let (out, count, error) = written(&engine, lines(&["x", "y", "xx", "x y x"]));
    assert!(out.is_empty());
    assert_eq!(count, 3);
    assert!(error.is_none());
}

#[test]
fn whole_scan_ends_at_the_first_failure() {
    let engine = Searcher::new("x", numbering()).unwrap();
    let reads = vec![
        Ok("x1".to_string()),
        Err("invalid data".to_string()),
        Ok("x2".to_string()),
    ];
    let (out, count, error) = written(&engine, reads);
    assert_eq!(out, vec!["1: x1"]);
    assert_eq!(count, 1);
    assert_eq!(error, Some(SearchError::LineReadFailure("invalid data".to_string())));
}

#[test]
fn format_next_writes_nothing_once_halted() {
    let engine = Searcher::new("x", numbering()).unwrap();
    let mut run = engine.search();
    let mut out = Vec::new();
    assert!(run.format_next(Err("gone".to_string()), &mut out).is_err());
    assert!(run.format_next(Ok("x".to_string()), &mut out).is_ok());
    assert!(run.format_next(Err("again".to_string()), &mut out).is_ok());
    assert!(out.is_empty());
    assert_eq!(run.matched_lines(), 0);
    assert_eq!(run.lines_read(), 0);
}
