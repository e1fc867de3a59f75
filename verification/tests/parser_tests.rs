use argparser::Argument;
use argparser::Flag;
use argparser::create_arg;
use argparser::create_flag;
use argparser::create_parser;

fn standard_parser() -> argparser::Parser {
    let mut flags: Vec<Flag> = Vec::new();
    flags.push(create_flag("a", "This is the a flag", vec!["some"]));
    flags.push(create_flag("b", "This is the b flag", vec!["some", "thing"]));
    flags.push(create_flag("c", "This is the c flag", vec!["some"]));
    flags.push(create_flag("d", "This is the d flag", vec![]));

    let mut args: Vec<Argument> = Vec::new();
    args.push(create_arg("foo", "This is the foo argument"));
    args.push(create_arg("bar", "This is the bar argument"));

    create_parser("Test Parser", "Tests arguments", flags, args)
}

#[test]
fn fourth_flag_has_zero_options() {
    let mut flags: Vec<Flag> = Vec::new();
    flags.push(create_flag("a", "This is the a flag", vec!["some"]));
    flags.push(create_flag("b", "This is the b flag", vec!["some", "thing"]));
    flags.push(create_flag("c", "This is the c flag", vec!["some"]));
    flags.push(create_flag("d", "This is the d flag", vec![]));

    let mut args: Vec<Argument> = Vec::new();
    args.push(create_arg("foo", "This is the foo argument"));
    args.push(create_arg("bar", "This is the bar argument"));

    let arg_parser = create_parser("Test Parser", "Tests arguments", flags, args);
    assert_eq!(arg_parser.flags[3].options.len(), 0);
}

#[test]
fn third_flag_is_c() {
    let arg_parser = standard_parser();
    println!("{}", arg_parser.help());
    assert_eq!(arg_parser.flags[2].title, "c");
}

#[test]
fn empty_flag_and_argument_are_blank() {
    let f = Flag::new();
    assert_eq!(f.title, "");
    assert_eq!(f.description, "");
    assert_eq!(f.options.len(), 0);
    let a = Argument::new();
    assert_eq!(a.title, "");
    assert_eq!(a.description, "");
}

#[test]
fn help_matches_expected_text() {
    let parser = standard_parser();
    let expected = "Test Parser, Tests arguments\nUsage: -h for help:\n\n Options:\n    -a <some> :\n\t This is the a flag\n    -b <some> <thing> :\n\t This is the b flag\n    -c <some> :\n\t This is the c flag\n    -d :\n\t This is the d flag\n\n Arguments:\n    foo :\n\t This is the foo argument\n    bar :\n\t This is the bar argument\n";
    assert_eq!(parser.help(), expected);
}

#[test]
fn help_is_deterministic() {
    let parser = standard_parser();
    assert_eq!(parser.help(), parser.help());
}

#[test]
fn help_omits_empty_blocks() {
    let parser = create_parser("Tiny", "No declarations", Vec::new(), Vec::new());
    assert_eq!(parser.help(), "Tiny, No declarations\nUsage: -h for help:\n\n");
}
