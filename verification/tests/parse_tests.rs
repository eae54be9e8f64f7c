use pesh::{parse_command, Command};

fn expect_set(line: &str) -> (String, Vec<(String, String)>, String) {
    match parse_command(line) {
        Ok(Some(Command::SetCmd { metric, value })) => (metric.name, metric.tags, value),
        other => panic!("expected a set command for {:?}, got another outcome: {}", line, describe(&other)),
    }
}

fn describe(r: &Result<Option<Command>, pesh::ParseError>) -> String {
    match r {
        Ok(None) => "empty".to_string(),
        Ok(Some(_)) => "some command".to_string(),
        Err(_) => "parse error".to_string(),
    }
}

#[test]
fn set_simple() {
    let (name, tags, value) = expect_set("set foo = 1.5");
    assert_eq!(name, "foo");
    assert!(tags.is_empty());
    assert_eq!(value, "1.5");
}

#[test]
fn set_without_spaces() {
    let (name, tags, value) = expect_set("set x=1");
    assert_eq!(name, "x");
    assert!(tags.is_empty());
    assert_eq!(value, "1");
}

#[test]
fn set_with_tags() {
    let (name, tags, value) = expect_set("set foo[a=\"1\",b=\"2\"] = 3");
    assert_eq!(name, "foo");
    assert_eq!(tags, vec![("a".to_string(), "1".to_string()), ("b".to_string(), "2".to_string())]);
    assert_eq!(value, "3");
}

#[test]
fn set_tag_whitespace_around_equals() {
    let (_, tags, _) = expect_set("set x[a = \"1\"] = 2");
    assert_eq!(tags, vec![("a".to_string(), "1".to_string())]);
}

#[test]
fn set_duplicate_keys_kept_in_order() {
    let (_, tags, _) = expect_set("set x[a=\"1\",a=\"2\"] = 5");
    assert_eq!(tags, vec![("a".to_string(), "1".to_string()), ("a".to_string(), "2".to_string())]);
}

#[test]
fn number_forms() {
    assert_eq!(expect_set("set x = -2e3").2, "-2e3");
    assert_eq!(expect_set("set x = +1E-2").2, "+1E-2");
    assert_eq!(expect_set("set x = .5").2, ".5");
    assert_eq!(expect_set("set x = 1.").2, "1.");
    assert_eq!(expect_set("set x = 007").2, "007");
}

#[test]
fn get_and_del() {
    match parse_command("get foo[a=\"1\"]") {
        Ok(Some(Command::GetCmd { metric })) => {
            assert_eq!(metric.name, "foo");
            assert_eq!(metric.tags, vec![("a".to_string(), "1".to_string())]);
        }
        other => panic!("expected get, got {}", describe(&other)),
    }
    match parse_command("del foo") {
        Ok(Some(Command::DelCmd { metric })) => {
            assert_eq!(metric.name, "foo");
            assert!(metric.tags.is_empty());
        }
        other => panic!("expected del, got {}", describe(&other)),
    }
}

#[test]
fn exit_quit_help() {
    assert!(matches!(parse_command("exit"), Ok(Some(Command::ExitCmd))));
    assert!(matches!(parse_command("quit"), Ok(Some(Command::ExitCmd))));
    assert!(matches!(parse_command("help"), Ok(Some(Command::HelpCmd))));
}

#[test]
fn rejects_partial_matches() {
    assert!(parse_command("sett x = 1").is_err());
    assert!(parse_command("set x=1extra").is_err());
}

#[test]
fn rejects_trailing_text() {
    assert!(parse_command("help me").is_err());
    assert!(parse_command("exit now").is_err());
    assert!(parse_command("set x = 1e").is_err());
}

#[test]
fn rejects_malformed() {
    assert!(parse_command("x = 1").is_err());
    assert!(parse_command("set = 1").is_err());
    assert!(parse_command("set x =").is_err());
    assert!(parse_command("set x = abc").is_err());
    assert!(parse_command("set x[a=1] = 1").is_err());
    assert!(parse_command("set x[] = 1").is_err());
    assert!(parse_command("set x [a=\"1\"] = 1").is_err());
    assert!(parse_command("set x[a=\"1\" = 1").is_err());
    assert!(parse_command("set x9 = 1").is_err());
}

#[test]
fn escaping_decodes() {
    let (_, tags, _) = expect_set("set x[k=\"a\\\"b\"] = 1");
    assert_eq!(tags, vec![("k".to_string(), "a\"b".to_string())]);
    let (_, tags, _) = expect_set("set x[k=\"a\\\\b\"] = 1");
    assert_eq!(tags, vec![("k".to_string(), "a\\b".to_string())]);
}

#[test]
fn escaping_rejects_invalid() {
    // an unrecognized escape invalidates the token
    assert!(parse_command("set x[k=\"a\\qb\"] = 1").is_err());
    // a trailing lone backslash escapes the closing quote: unterminated
    assert!(parse_command("set x[k=\"a\\\"] = 1").is_err());
}

#[test]
fn empty_value_and_unicode_value() {
    let (_, tags, _) = expect_set("set x[k=\"\"] = 1");
    assert_eq!(tags, vec![("k".to_string(), "".to_string())]);
    let (_, tags, _) = expect_set("set x[k=\"müß\"] = 1");
    assert_eq!(tags, vec![("k".to_string(), "müß".to_string())]);
}

#[test]
fn whitespace_only_lines_are_empty() {
    assert!(matches!(parse_command(""), Ok(None)));
    assert!(matches!(parse_command("   "), Ok(None)));
    assert!(matches!(parse_command(" \t \r\n"), Ok(None)));
    // the grammar's whitespace is space, tab, CR and LF alone: a vertical
    // tab is no blank line but a parse error
    assert!(parse_command("\u{000B}").is_err());
}
