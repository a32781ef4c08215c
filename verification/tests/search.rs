use linesearch::matcher::find_matches;
use linesearch::matcher::line_matches;
use linesearch::runner::exit_code;
use linesearch::runner::search_lines;
use linesearch::runner::ReadOutcome;
use linesearch::runner::SearchError;
use linesearch::runner::Searcher;

fn bytes(s: &str) -> Vec<u8> {
    s.as_bytes().to_vec()
}

fn lines(ls: &[&str]) -> Vec<Vec<u8>> {
    ls.iter().map(|l| bytes(l)).collect()
}

fn reads(ls: &[&str]) -> Vec<ReadOutcome> {
    ls.iter().map(|l| ReadOutcome::Line(bytes(l))).collect()
}

#[test]
fn apple_scenario_matches_in_order() {
    let found = find_matches(&lines(&["apple", "banana", "applesauce", "grape"]), &bytes("app"));
    assert_eq!(found, lines(&["apple", "applesauce"]));
}

#[test]
fn apple_scenario_run_output_and_count() {
    let (out, res) = search_lines(&reads(&["apple", "banana", "applesauce", "grape"]), &bytes("app"));
    assert_eq!(out, lines(&["Match 0: apple", "Match 1: applesauce"]));
    assert_eq!(res, Ok(2));
    assert_eq!(exit_code(&res), 0);
}

#[test]
fn no_match_is_success() {
    let (out, res) = search_lines(&reads(&["foo", "bar"]), &bytes("baz"));
    assert!(out.is_empty());
    assert_eq!(res, Ok(0));
    assert_eq!(exit_code(&res), 0);
}

#[test]
fn empty_file_zero_matches() {
    let (out, res) = search_lines(&reads(&[]), &bytes("app"));
    assert!(out.is_empty());
    assert_eq!(res, Ok(0));
    assert_eq!(exit_code(&res), 0);
}

#[test]
fn empty_pattern_matches_every_line() {
    let found = find_matches(&lines(&["a", "", "xyz"]), &bytes(""));
    assert_eq!(found, lines(&["a", "", "xyz"]));
    let (out, res) = search_lines(&reads(&["a", "", "xyz"]), &bytes(""));
    assert_eq!(out, lines(&["Match 0: a", "Match 1: ", "Match 2: xyz"]));
    assert_eq!(res, Ok(3));
}

#[test]
fn pattern_longer_than_any_line_matches_nothing() {
    let found = find_matches(&lines(&["ab", "cd", ""]), &bytes("abcde"));
    assert!(found.is_empty());
}

#[test]
fn matching_is_case_sensitive() {
    assert!(!line_matches(&bytes("apple"), &bytes("App")));
    assert!(line_matches(&bytes("Apple"), &bytes("App")));
}

#[test]
fn pattern_found_at_every_position() {
    assert!(line_matches(&bytes("needle in a haystack"), &bytes("needle")));
    assert!(line_matches(&bytes("a needle somewhere"), &bytes("needle")));
    assert!(line_matches(&bytes("find the needle"), &bytes("needle")));
    assert!(!line_matches(&bytes("nee dle"), &bytes("needle")));
    assert!(line_matches(&bytes("x"), &bytes("x")));
    assert!(!line_matches(&bytes(""), &bytes("x")));
}

#[test]
fn read_failure_mid_stream_keeps_earlier_matches() {
    let r = vec![
        ReadOutcome::Line(bytes("apple")),
        ReadOutcome::ReadFailure,
        ReadOutcome::Line(bytes("applesauce")),
    ];
    let (out, res) = search_lines(&r, &bytes("app"));
    assert_eq!(out, lines(&["Match 0: apple"]));
    assert_eq!(res, Err(SearchError::LineReadError));
    assert_eq!(exit_code(&res), 2);
}

#[test]
fn read_failure_on_first_line_prints_nothing() {
    let r = vec![ReadOutcome::ReadFailure, ReadOutcome::Line(bytes("foo"))];
    let (out, res) = search_lines(&r, &bytes(""));
    assert!(out.is_empty());
    assert_eq!(res, Err(SearchError::LineReadError));
}

#[test]
fn search_twice_same_output() {
    let file = ["apple", "banana", "applesauce", "grape"];
    let (out1, res1) = search_lines(&reads(&file), &bytes("an"));
    let (out2, res2) = search_lines(&reads(&file), &bytes("an"));
    assert_eq!(out1, out2);
    assert_eq!(res1, res2);
}

#[test]
fn streaming_searcher_counts_and_labels() {
    let mut s = Searcher::new(bytes("app"));
    assert_eq!(s.match_count(), 0);
    assert_eq!(s.process_line(&bytes("apple")), Some(bytes("Match 0: apple")));
    assert_eq!(s.process_line(&bytes("banana")), None);
    assert_eq!(s.process_line(&bytes("applesauce")), Some(bytes("Match 1: applesauce")));
    assert_eq!(s.match_count(), 2);
}
