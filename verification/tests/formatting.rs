use linesearch::output::format_match;
use linesearch::output::u64_to_decimal;
use linesearch::runner::exit_code;
use linesearch::runner::open_error_message;
use linesearch::runner::read_error_message;
use linesearch::runner::SearchError;

fn bytes(s: &str) -> Vec<u8> {
    s.as_bytes().to_vec()
}

#[test]
fn decimal_single_digits() {
    assert_eq!(u64_to_decimal(0), bytes("0"));
    assert_eq!(u64_to_decimal(7), bytes("7"));
    assert_eq!(u64_to_decimal(9), bytes("9"));
}

#[test]
fn decimal_multiple_digits() {
    assert_eq!(u64_to_decimal(10), bytes("10"));
    assert_eq!(u64_to_decimal(42), bytes("42"));
    assert_eq!(u64_to_decimal(100), bytes("100"));
    assert_eq!(u64_to_decimal(1234567890), bytes("1234567890"));
}

#[test]
fn decimal_largest_value() {
    assert_eq!(u64_to_decimal(u64::MAX), bytes("18446744073709551615"));
}

#[test]
fn format_match_exact_bytes() {
    assert_eq!(format_match(3, &bytes("hello")), bytes("Match 3: hello"));
    assert_eq!(format_match(0, &bytes("")), bytes("Match 0: "));
    assert_eq!(format_match(12, &bytes("a b")), bytes("Match 12: a b"));
}

#[test]
fn open_error_message_names_the_path() {
    let msg = open_error_message(&bytes("data.txt"));
    assert_eq!(msg, bytes("could not open file: data.txt"));
    let path = bytes("data.txt");
    assert!(msg.windows(path.len()).any(|w| w == &path[..]));
}

#[test]
fn read_error_message_names_the_path() {
    let msg = read_error_message(&bytes("data.txt"));
    assert_eq!(msg, bytes("could not read line from file: data.txt"));
    let path = bytes("data.txt");
    assert!(msg.windows(path.len()).any(|w| w == &path[..]));
}

#[test]
fn exit_codes_by_outcome() {
    assert_eq!(exit_code(&Ok(0)), 0);
    assert_eq!(exit_code(&Ok(5)), 0);
    assert_eq!(exit_code(&Err(SearchError::FileOpenError)), 1);
    assert_eq!(exit_code(&Err(SearchError::LineReadError)), 2);
}
