use mrustgrep::{Options, OutputFormat};

fn options(show_line_number: bool, count_only: bool, case_ignore: bool, match_only: bool) -> Options {
    Options { show_line_number, count_only, case_ignore, match_only }
}

#[test]
fn default_options_have_nothing_set() {
    let opts = Options::default();
    assert!(!opts.show_line_number);
    assert!(!opts.count_only);
    assert!(!opts.case_ignore);
    assert!(!opts.match_only);
}

#[test]
fn no_switch_selects_full_line() {
    assert_eq!(Options::default().output_format(), OutputFormat::FullLine);
}

#[test]
fn case_ignore_alone_selects_full_line() {
    assert_eq!(options(false, false, true, false).output_format(), OutputFormat::FullLine);
}

#[test]
fn line_number_selects_line_numbered() {
    assert_eq!(options(true, false, false, false).output_format(), OutputFormat::LineNumbered);
}

#[test]
fn match_only_wins_over_line_number() {
    assert_eq!(options(true, false, false, true).output_format(), OutputFormat::MatchOnly);
}

#[test]
fn count_only_wins_over_match_only() {
    assert_eq!(options(false, true, false, true).output_format(), OutputFormat::CountOnly);
}

#[test]
fn count_only_wins_over_everything() {
    assert_eq!(options(true, true, true, true).output_format(), OutputFormat::CountOnly);
}

#[test]
fn every_combination_follows_the_priority() {
    for bits in 0..16u8 {
        let opts = options(bits & 1 != 0, bits & 2 != 0, bits & 4 != 0, bits & 8 != 0);
        let expected = if opts.count_only {
            OutputFormat::CountOnly
        } else if opts.match_only {
            OutputFormat::MatchOnly
        } else if opts.show_line_number {
            OutputFormat::LineNumbered
        } else {
            OutputFormat::FullLine
        };
        assert_eq!(opts.output_format(), expected);
        assert_eq!(OutputFormat::from(&opts), expected);
    }
}
