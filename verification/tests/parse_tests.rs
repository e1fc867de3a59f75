use argparser::Argument;
use argparser::ErrorKind;
use argparser::Flag;
use argparser::ParseOutcome;
use argparser::ParsedArgs;
use argparser::create_arg;
use argparser::create_flag;
use argparser::create_parser;

fn standard_parser() -> argparser::Parser {
    let mut flags: Vec<Flag> = Vec::new();
    flags.push(create_flag("a", "This is the a flag", vec!["some"]));
    flags.push(create_flag("b", "This is the b flag", vec!["some", "thing"]));
    flags.push(create_flag("c", "This is the c flag", vec!["some"]));
    flags.push(create_flag("d", "This is the d flag", vec![]));

    let mut args: Vec<Argument> = Vec::new();
    args.push(create_arg("foo", "This is the foo argument"));
    args.push(create_arg("bar", "This is the bar argument"));

    create_parser("Test Parser", "Tests arguments", flags, args)
}

fn tokens(raw: &[&str]) -> Vec<String> {
    raw.iter().map(|s| s.to_string()).collect()
}

fn expect_success(outcome: ParseOutcome) -> ParsedArgs {
    match outcome {
        ParseOutcome::Success(parsed) => parsed,
        ParseOutcome::Help(_) => panic!("expected success, got a help request"),
        ParseOutcome::Failure(e) => panic!("expected success, got failure {:?}", e.kind),
    }
}

fn expect_failure(outcome: ParseOutcome) -> (ErrorKind, String, String) {
    match outcome {
        ParseOutcome::Success(_) => panic!("expected failure, got success"),
        ParseOutcome::Help(_) => panic!("expected failure, got a help request"),
        ParseOutcome::Failure(e) => (e.kind, e.token, e.usage),
    }
}

#[test]
fn flags_and_argument_recognized() {
    let parser = standard_parser();
    let parsed = expect_success(parser.parse(&tokens(&["-a", "some", "-d", "foo"])));
    assert_eq!(
        parsed.flags,
        vec![("a".to_string(), "some".to_string()), ("d".to_string(), "".to_string())]
    );
    assert_eq!(parsed.arguments, vec!["foo".to_string()]);
}

#[test]
fn duplicate_flag_fails() {
    let parser = standard_parser();
    let (kind, token, usage) = expect_failure(parser.parse(&tokens(&["-a", "-a"])));
    assert_eq!(kind, ErrorKind::DuplicateFlag);
    assert_eq!(token, "-a");
    assert_eq!(usage, parser.help());
}

#[test]
fn duplicate_flag_fails_after_option_value() {
    let parser = standard_parser();
    let (kind, token, _) = expect_failure(parser.parse(&tokens(&["-a", "some", "-a"])));
    assert_eq!(kind, ErrorKind::DuplicateFlag);
    assert_eq!(token, "-a");
}

#[test]
fn unknown_argument_fails() {
    let mut args: Vec<Argument> = Vec::new();
    args.push(create_arg("foo", "This is the foo argument"));
    let parser = create_parser("Solo", "One argument", Vec::new(), args);
    let (kind, token, usage) = expect_failure(parser.parse(&tokens(&["baz"])));
    assert_eq!(kind, ErrorKind::UnknownArgument);
    assert_eq!(token, "baz");
    assert_eq!(usage, parser.help());
}

#[test]
fn help_alias_returns_usage() {
    let parser = standard_parser();
    match parser.parse(&tokens(&["-h"])) {
        ParseOutcome::Help(usage) => assert_eq!(usage, parser.help()),
        _ => panic!("expected a help request"),
    }
}

#[test]
fn help_alias_is_case_insensitive() {
    let parser = standard_parser();
    match parser.parse(&tokens(&["-H"])) {
        ParseOutcome::Help(usage) => assert_eq!(usage, parser.help()),
        _ => panic!("expected a help request"),
    }
}

#[test]
fn zero_slot_flag_records_empty_value() {
    let parser = standard_parser();
    let parsed = expect_success(parser.parse(&tokens(&["-d"])));
    assert_eq!(parsed.flags, vec![("d".to_string(), "".to_string())]);
    assert_eq!(parsed.arguments.len(), 0);
}

#[test]
fn trailing_awaited_flag_records_empty_value() {
    let parser = standard_parser();
    let parsed = expect_success(parser.parse(&tokens(&["-a"])));
    assert_eq!(parsed.flags, vec![("a".to_string(), "".to_string())]);
}

#[test]
fn awaited_flag_followed_by_flag_records_empty_value() {
    let parser = standard_parser();
    let parsed = expect_success(parser.parse(&tokens(&["-a", "-d"])));
    assert_eq!(
        parsed.flags,
        vec![("a".to_string(), "".to_string()), ("d".to_string(), "".to_string())]
    );
}

#[test]
fn duplicate_argument_fails() {
    let parser = standard_parser();
    let (kind, token, _) = expect_failure(parser.parse(&tokens(&["foo", "foo"])));
    assert_eq!(kind, ErrorKind::DuplicateArgument);
    assert_eq!(token, "foo");
}

#[test]
fn unknown_flag_fails() {
    let parser = standard_parser();
    let (kind, token, usage) = expect_failure(parser.parse(&tokens(&["-z"])));
    assert_eq!(kind, ErrorKind::UnknownFlag);
    assert_eq!(token, "-z");
    assert_eq!(usage, parser.help());
}

#[test]
fn value_after_zero_slot_flag_fails() {
    let parser = standard_parser();
    let (kind, token, _) = expect_failure(parser.parse(&tokens(&["-d", "xyz"])));
    assert_eq!(kind, ErrorKind::FlagTakesNoOption);
    assert_eq!(token, "xyz");
}

#[test]
fn declared_argument_after_zero_slot_flag_succeeds() {
    let parser = standard_parser();
    let parsed = expect_success(parser.parse(&tokens(&["-d", "foo"])));
    assert_eq!(parsed.flags, vec![("d".to_string(), "".to_string())]);
    assert_eq!(parsed.arguments, vec!["foo".to_string()]);
}

#[test]
fn flag_and_option_value_are_case_folded() {
    let parser = standard_parser();
    let parsed = expect_success(parser.parse(&tokens(&["-A", "SOME"])));
    assert_eq!(parsed.flags, vec![("a".to_string(), "some".to_string())]);
}

#[test]
fn argument_token_is_case_folded() {
    let parser = standard_parser();
    let parsed = expect_success(parser.parse(&tokens(&["FOO"])));
    assert_eq!(parsed.arguments, vec!["foo".to_string()]);
}

#[test]
fn uppercase_declared_argument_never_matches() {
    let mut args: Vec<Argument> = Vec::new();
    args.push(create_arg("Foo", "Declared with a capital letter"));
    let parser = create_parser("Odd", "Asymmetric matching", Vec::new(), args);
    let (kind, token, _) = expect_failure(parser.parse(&tokens(&["Foo"])));
    assert_eq!(kind, ErrorKind::UnknownArgument);
    assert_eq!(token, "Foo");
}

#[test]
fn empty_input_gives_empty_result() {
    let parser = standard_parser();
    let parsed = expect_success(parser.parse(&Vec::new()));
    assert_eq!(parsed.flags.len(), 0);
    assert_eq!(parsed.arguments.len(), 0);
}

#[test]
fn bare_marker_is_an_argument_token() {
    let parser = standard_parser();
    let (kind, token, _) = expect_failure(parser.parse(&tokens(&["-"])));
    assert_eq!(kind, ErrorKind::UnknownArgument);
    assert_eq!(token, "-");
}

#[test]
fn multi_slot_flag_captures_a_single_value() {
    let parser = standard_parser();
    let parsed = expect_success(parser.parse(&tokens(&["-b", "x", "foo"])));
    assert_eq!(parsed.flags, vec![("b".to_string(), "x".to_string())]);
    assert_eq!(parsed.arguments, vec!["foo".to_string()]);
}

#[test]
fn declared_flag_named_h_preempts_help() {
    let mut flags: Vec<Flag> = Vec::new();
    flags.push(create_flag("h", "Shadows the help alias", vec![]));
    let parser = create_parser("Shadow", "Flag named h", flags, Vec::new());
    let parsed = expect_success(parser.parse(&tokens(&["-h"])));
    assert_eq!(parsed.flags, vec![("h".to_string(), "".to_string())]);
}

#[test]
fn first_failure_wins_over_later_help() {
    let parser = standard_parser();
    let (kind, token, _) = expect_failure(parser.parse(&tokens(&["baz", "-h"])));
    assert_eq!(kind, ErrorKind::UnknownArgument);
    assert_eq!(token, "baz");
}

#[test]
fn marked_token_after_awaited_flag_is_reclassified() {
    // A marked token directly after an awaited flag is reclassified as a
    // flag, not captured as the option value.
    let parser = standard_parser();
    let (kind, token, _) = expect_failure(parser.parse(&tokens(&["-a", "-z"])));
    assert_eq!(kind, ErrorKind::UnknownFlag);
    assert_eq!(token, "-z");
}
