use commit_lint::header::{ParseError, State};
use commit_lint::message::{parse_stream, MessageError};
use std::io::{BufRead, BufReader, Cursor, Read};

fn parse<R: Read>(message: R) -> Result<(String, String, String, String), MessageError> {
    let lines = BufReader::new(message)
        .lines()
        .map(|line| line.unwrap_or("".to_string()))
        .collect();
    parse_stream(lines)
}

fn lines(text: &[&str]) -> Vec<String> {
    text.iter().map(|s| s.to_string()).collect()
}

#[test]
fn test_parse_valid_input() {
    let input = b"feat(module): Add a new feature.\nThis is the first line of the feature.\nAnd this is the last line.";
    let expected_output = (
        "feat".to_string(),
        "module".to_string(),
        "Add a new feature.".to_string(),
        "This is the first line of the feature.\nAnd this is the last line.".to_string(),
    );
    let result = parse(Cursor::new(input)).unwrap();
    assert_eq!(result, expected_output);
}

#[test]
fn test_parse_invalid_input_with_fixup() {
    let input = b"fixup! fix: This is a fixup commit.\nThis is another line of the commit.\nAnd this is the last line.";
    let expected_output = MessageError::Header(ParseError::InvalidType);
    let result = parse(Cursor::new(input)).unwrap_err();
    assert_eq!(result, expected_output);
}

#[test]
fn test_parse_invalid_input() {
    let input = b"This is not a valid input because it does not start with a keyword.";
    let expected_output = MessageError::Header(ParseError::InvalidType);
    let result = parse(Cursor::new(input)).unwrap_err();
    assert_eq!(result, expected_output);
}

#[test]
fn test_parse_input_without_colon() {
    let input = b"fixup! fix This is a fixup commit.\nThis is another line of the commit.\nAnd this is the last line.";
    let expected_output = MessageError::Header(ParseError::InvalidType);
    let result = parse(Cursor::new(input)).unwrap_err();
    assert_eq!(result, expected_output);
}

#[test]
fn test_parse_input_without_parenthesis() {
    let input = b"feature module: Add a new feature.\nThis is the first line of the feature.\nAnd this is the last line.";
    let expected_output = MessageError::Header(ParseError::InvalidType);
    let result = parse(Cursor::new(input)).unwrap_err();
    assert_eq!(result, expected_output);
}

#[test]
fn message_without_a_line_has_no_header() {
    assert_eq!(parse_stream(vec![]), Err(MessageError::NoFirstLine));
    assert_eq!(parse(Cursor::new(b"")).unwrap_err(), MessageError::NoFirstLine);
    assert_eq!(
        parse_stream(lines(&[""])),
        Err(MessageError::Header(ParseError::Incomplete(State::Type)))
    );
}

#[test]
fn header_errors_come_through() {
    assert_eq!(
        parse_stream(lines(&["feat(a: b", "body"])),
        Err(MessageError::Header(ParseError::UnclosedScope))
    );
    assert_eq!(
        parse_stream(lines(&["feat(a", "): b"])),
        Err(MessageError::Header(ParseError::Incomplete(State::Scope)))
    );
    assert_eq!(
        parse_stream(lines(&["feat(a b): c"])),
        Err(MessageError::Header(ParseError::InvalidScope))
    );
}

#[test]
fn body_is_the_lines_after_the_first_trimmed() {
    let ok = |t: &str, s: &str, d: &str, b: &str| {
        Ok((t.to_string(), s.to_string(), d.to_string(), b.to_string()))
    };
    assert_eq!(parse_stream(lines(&["feat: x"])), ok("feat", "", "x", ""));
    assert_eq!(
        parse_stream(lines(&["feat(a): x ", "", "  one", "", "two  ", "", " "])),
        ok("feat", "a", "x", "one\n\ntwo")
    );
    assert_eq!(
        parse_stream(lines(&["fix: y", "not(a header", ":::"])),
        ok("fix", "", "y", "not(a header\n:::")
    );
    assert_eq!(parse_stream(lines(&["fix: y", "", "\t", ""])), ok("fix", "", "y", ""));
}

#[test]
fn message_errors_say_what_failed() {
    assert_eq!(MessageError::NoFirstLine.message(), "Failed to read first line");
    assert_eq!(
        MessageError::Header(ParseError::InvalidType).message(),
        ParseError::InvalidType.message()
    );
}
