use commit_lint::config::parse_commit_types;
use commit_lint::rules::{validate, CommitMessage, ValidationError};

#[test]
fn test_parse_commit_types() {
    // a commit type with no required fields
    let text = "fix=".to_string();
    let expected_output = vec![CommitMessage {
        commit_type: "fix".to_string(),
        required: vec![],
    }];
    assert_eq!(parse_commit_types(text), expected_output);

    // a commit type with required fields
    let text = "fix=field1,field2".to_string();
    let expected_output = vec![CommitMessage {
        commit_type: "fix".to_string(),
        required: vec!["field1".to_string(), "field2".to_string()],
    }];
    assert_eq!(parse_commit_types(text), expected_output);

    // several commit types
    let text = "fix=field1,field2;feature=field3,field4".to_string();
    let expected_output = vec![
        CommitMessage {
            commit_type: "fix".to_string(),
            required: vec!["field1".to_string(), "field2".to_string()],
        },
        CommitMessage {
            commit_type: "feature".to_string(),
            required: vec!["field3".to_string(), "field4".to_string()],
        },
    ];
    assert_eq!(parse_commit_types(text), expected_output);

    // the empty input
    let text = "".to_string();
    let expected_output = vec![];
    assert_eq!(parse_commit_types(text), expected_output);
}

fn rule(commit_type: &str, required: &[&str]) -> CommitMessage {
    CommitMessage {
        commit_type: commit_type.to_string(),
        required: required.iter().map(|s| s.to_string()).collect(),
    }
}

#[test]
fn rule_without_equals_sign_requires_nothing() {
    assert_eq!(parse_commit_types("fix".to_string()), vec![rule("fix", &[])]);
    assert_eq!(
        parse_commit_types("fix;feat=scope".to_string()),
        vec![rule("fix", &[]), rule("feat", &["scope"])]
    );
}

#[test]
fn empty_parts_between_semicolons_are_rules_too() {
    assert_eq!(parse_commit_types(";".to_string()), vec![rule("", &[]), rule("", &[])]);
    assert_eq!(
        parse_commit_types("a=x;".to_string()),
        vec![rule("a", &["x"]), rule("", &[])]
    );
    assert_eq!(parse_commit_types("=scope".to_string()), vec![rule("", &["scope"])]);
}

#[test]
fn empty_field_names_are_left_out() {
    assert_eq!(
        parse_commit_types("a=,x,,y,".to_string()),
        vec![rule("a", &["x", "y"])]
    );
    assert_eq!(parse_commit_types("a=,,".to_string()), vec![rule("a", &[])]);
    assert_eq!(parse_commit_types("a= ,x".to_string()), vec![rule("a", &[" ", "x"])]);
}

#[test]
fn second_equals_sign_ends_the_fields() {
    assert_eq!(
        parse_commit_types("a=x,y=z,w;b==c".to_string()),
        vec![rule("a", &["x", "y"]), rule("b", &[])]
    );
}

#[test]
fn rules_agree_with_the_standard_split() {
    for text in ["a=b,c;d=e", "x", ";;", "a=b=c;=;,", "é=ü,ß;日本=語", "a=scope,description"] {
        let expected: Vec<CommitMessage> = text
            .split(';')
            .map(|item| {
                let parts: Vec<&str> = item.split('=').collect();
                CommitMessage {
                    commit_type: parts[0].to_string(),
                    required: parts
                        .get(1)
                        .unwrap_or(&"")
                        .split(',')
                        .filter(|s| !s.is_empty())
                        .map(|s| s.to_string())
                        .collect(),
                }
            })
            .collect();
        assert_eq!(parse_commit_types(text.to_string()), expected);
    }
}

#[test]
fn configured_rules_replace_the_default_ones() {
    let rules = parse_commit_types("wip=;feat=scope".to_string());
    assert_eq!(validate(rules.clone(), "wip", "", ""), Ok(true));
    assert_eq!(validate(rules.clone(), "feat", "", ""), Err(ValidationError::MissingScope));
    assert_eq!(validate(rules, "fix", "s", "d"), Err(ValidationError::TypeNotAllowed));
    assert_eq!(
        validate(parse_commit_types("".to_string()), "feat", "s", "d"),
        Err(ValidationError::TypeNotAllowed)
    );
}
