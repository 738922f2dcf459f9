use commit_lint::header::{parse, ParseError, State};

fn fields(commit_type: &str, scope: &str, description: &str) -> (String, String, String) {
    (commit_type.to_string(), scope.to_string(), description.to_string())
}

#[test]
fn test_header_success() {
    let test_cases = vec![
        (
            "name:".to_string(),
            ("name".to_string(), "".to_string(), "".to_string()),
        ),
        (
            "name(args): ".to_string(),
            ("name".to_string(), "args".to_string(), "".to_string()),
        ),
        (
            "name: value".to_string(),
            ("name".to_string(), "".to_string(), "value".to_string()),
        ),
        (
            "name(args): value".to_string(),
            ("name".to_string(), "args".to_string(), "value".to_string()),
        ),
        (
            "name(args): value: another_value".to_string(),
            (
                "name".to_string(),
                "args".to_string(),
                "value: another_value".to_string(),
            ),
        ),
        (
            "name(arg1,arg2): value".to_string(),
            (
                "name".to_string(),
                "arg1,arg2".to_string(),
                "value".to_string(),
            ),
        ),
        (
            "name(arg_1,arg-2,arg$3): value".to_string(),
            (
                "name".to_string(),
                "arg_1,arg-2,arg$3".to_string(),
                "value".to_string(),
            ),
        ),
    ];
    for (input, expected) in test_cases {
        match parse(&input) {
            Ok(header) => assert_eq!(header, expected, "Unexpected failure for value {}", input),
            Err(e) => assert!(
                false,
                "Should not have failed for '{}', but did with '{}'",
                input,
                e.message()
            ),
        }
    }
}

#[test]
fn test_header_failure() {
    let test_cases = vec![
        ("", ParseError::Incomplete(State::Type)),
        ("name", ParseError::Incomplete(State::Type)),
        ("name value", ParseError::InvalidType),
        ("name(args) value", ParseError::InvalidScope),
        ("name(args: value", ParseError::UnclosedScope),
        ("name(arg.1/2*3): value", ParseError::InvalidScope),
    ];
    for (input, expected) in test_cases {
        match parse(&input) {
            Ok(_) => assert!(false, "Should not have failed for '{}', but didn't", input),
            Err(e) => assert_eq!(expected, e),
        }
    }
}

#[test]
fn header_without_scope_has_the_empty_scope() {
    assert_eq!(parse("feat: add a parser"), Ok(fields("feat", "", "add a parser")));
    assert_eq!(parse("fix_2:x"), Ok(fields("fix_2", "", "x")));
    assert_eq!(parse(":"), Ok(fields("", "", "")));
}

#[test]
fn header_with_scope_keeps_the_scope_as_written() {
    assert_eq!(
        parse("feat(core/io,net.tcp-$x_1): done"),
        Ok(fields("feat", "core/io,net.tcp-$x_1", "done"))
    );
    assert_eq!(parse("feat():x"), Ok(fields("feat", "", "x")));
}

#[test]
fn nothing_stands_between_the_parenthesis_and_the_colon() {
    assert_eq!(parse("a(b)c: d"), Err(ParseError::InvalidScope));
    assert_eq!(parse("a(b)): d"), Err(ParseError::InvalidScope));
    assert_eq!(parse("a(b) : d"), Err(ParseError::InvalidScope));
    assert_eq!(parse("a(b)(c): d"), Err(ParseError::InvalidScope));
    assert_eq!(parse("a)b: d"), Err(ParseError::InvalidType));
    assert_eq!(parse("a(b(c)): d"), Err(ParseError::InvalidScope));
    assert_eq!(parse("a(b):: d"), Ok(fields("a", "b", ": d")));
}

#[test]
fn description_is_trimmed_and_keeps_inner_white_space() {
    assert_eq!(parse("feat(args): value "), Ok(fields("feat", "args", "value")));
    assert_eq!(parse("feat:\t  a  b \u{a0}"), Ok(fields("feat", "", "a  b")));
    assert_eq!(parse("feat:   "), Ok(fields("feat", "", "")));
    assert_eq!(parse("feat: (x): y"), Ok(fields("feat", "", "(x): y")));
}

#[test]
fn white_space_inside_the_parentheses_is_refused() {
    assert_eq!(parse("feat( args ): value "), Err(ParseError::InvalidScope));
    assert_eq!(parse("feat(a b): value"), Err(ParseError::InvalidScope));
    assert_eq!(parse(" feat: value"), Err(ParseError::InvalidType));
    assert_eq!(parse("feat : value"), Err(ParseError::InvalidType));
}

#[test]
fn header_ends_at_the_first_line_feed() {
    assert_eq!(parse("feat: one\ntwo: three\n"), Ok(fields("feat", "", "one")));
    assert_eq!(parse("feat(x): one \r\n(((\n"), Ok(fields("feat", "x", "one")));
    assert_eq!(parse("feat:\nrest"), Ok(fields("feat", "", "")));
    assert_eq!(parse("feat\n: x"), Err(ParseError::InvalidType));
    assert_eq!(parse("feat(a\n): x"), Err(ParseError::InvalidScope));
}

#[test]
fn line_that_ends_early_names_its_phase() {
    assert_eq!(parse(""), Err(ParseError::Incomplete(State::Type)));
    assert_eq!(parse("name_1"), Err(ParseError::Incomplete(State::Type)));
    assert_eq!(parse("name("), Err(ParseError::Incomplete(State::Scope)));
    assert_eq!(parse("name(args"), Err(ParseError::Incomplete(State::Scope)));
    assert_eq!(parse("name(args)"), Err(ParseError::Incomplete(State::Scope)));
}

#[test]
fn letters_and_digits_beyond_ascii_are_read() {
    assert_eq!(
        parse("änderung(größe٣): später"),
        Ok(fields("änderung", "größe٣", "später"))
    );
    assert_eq!(parse("a\u{2003}b: c"), Err(ParseError::InvalidType));
    assert_eq!(parse("a(b\u{a0}): c"), Err(ParseError::InvalidScope));
    assert_eq!(parse("a💝: c"), Err(ParseError::InvalidType));
}

#[test]
fn first_offending_character_decides_the_error() {
    assert_eq!(parse("a b(c: d"), Err(ParseError::InvalidType));
    assert_eq!(parse("a(b: c d"), Err(ParseError::UnclosedScope));
    assert_eq!(parse("a(b c: d"), Err(ParseError::InvalidScope));
    assert_eq!(parse("a(b) c"), Err(ParseError::InvalidScope));
}

#[test]
fn parsed_header_written_out_parses_to_itself() {
    for line in ["feat(a,b):  x y  ", "fix:z", "a(b):  ", "docs():\ttab\n(body"] {
        let (commit_type, scope, description) = parse(line).unwrap();
        let written = if scope.is_empty() {
            format!("{}: {}", commit_type, description)
        } else {
            format!("{}({}): {}", commit_type, scope, description)
        };
        assert_eq!(parse(&written), Ok((commit_type, scope, description)));
    }
}

#[test]
fn parse_errors_say_what_failed() {
    assert_eq!(
        ParseError::InvalidType.message(),
        "Incorrect commit message, expected format 'TYPE([SCOPE]): MESSAGE\n[BODY]'! Failed to read the type from the header"
    );
    assert_eq!(
        ParseError::InvalidScope.message(),
        "Incorrect commit message, expected format 'TYPE([SCOPE]): MESSAGE\n[BODY]'!! Failed to retrieve the scope from the header"
    );
    assert_eq!(ParseError::UnclosedScope.message(), ParseError::InvalidScope.message());
    assert_eq!(
        ParseError::Incomplete(State::Type).message(),
        "Incorrect commit message, expected format 'TYPE([SCOPE]): MESSAGE\n[BODY]'!! Failed to read the body, ended up with the state Type instead."
    );
    assert_eq!(
        ParseError::Incomplete(State::Scope).message(),
        "Incorrect commit message, expected format 'TYPE([SCOPE]): MESSAGE\n[BODY]'!! Failed to read the body, ended up with the state Scope instead."
    );
    assert_eq!(State::Description.to_string(), "Description");
    assert_eq!(State::Body.to_string(), "Body");
}
