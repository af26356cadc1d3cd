use argparse::defarg::arg::Argument;
use argparse::parser::argparser::ArgParser;
use argparse::parser::argvalues::ArgValue;
use argparse::parser::parsedargs::ParsedArguments;
use argparse::{ParseError, RegistrationError};

fn option(kind: &str, name: &str, short: Option<&str>, long: Option<&str>, required: bool) -> Argument {
    let mut arg = Argument::with_type(kind).name(name);
    if let Some(short) = short {
        arg = arg.short(short);
    }
    if let Some(long) = long {
        arg = arg.long(long);
    }
    arg.required(required)
}

fn elements() -> ArgParser {
    let mut parser = ArgParser::new();
    parser
        .add_argument(option("text", "beans", Some("-b"), Some("--beans"), false))
        .unwrap();
    parser
        .add_argument(option("vector", "bananas", Some("-s"), Some("--bananas"), false))
        .unwrap();
    parser
        .add_argument(option("flag", "carbon", Some("-c"), Some("--carbon"), false))
        .unwrap();
    parser
        .add_argument(option("flag", "hydrogen", Some("-H"), None, false))
        .unwrap();
    parser
        .add_argument(option("flag", "corn", None, Some("--corn"), false))
        .unwrap();
    parser
}

fn failure(parser: &mut ArgParser, tokens: &[&str]) -> ParseError {
    match parser.parse_args(tokens) {
        Ok(_) => panic!("parse did not fail"),
        Err(error) => error,
    }
}

fn parsed(parser: &mut ArgParser, tokens: &[&str]) -> ParsedArguments {
    match parser.parse_args(tokens) {
        Ok(parsed) => parsed,
        Err(error) => panic!("parse failed: {:?}", error),
    }
}

fn flag_of(parsed: &ParsedArguments, name: &str) -> Option<bool> {
    match parsed.args.get(name) {
        Some(ArgValue::Flag(set)) => Some(*set),
        _ => None,
    }
}

fn text_of(parsed: &ParsedArguments, name: &str) -> Option<String> {
    match parsed.args.get(name) {
        Some(ArgValue::Text(text)) => Some(text.clone()),
        _ => None,
    }
}

fn vector_of(parsed: &ParsedArguments, name: &str) -> Option<Vec<String>> {
    match parsed.args.get(name) {
        Some(ArgValue::Vector(texts)) => Some(texts.clone()),
        _ => None,
    }
}

#[test]
fn creates_argument() {
    let arg = Argument::with_type("vector")
        .name("beans")
        .long("--beans")
        .short("-b")
        .required(true);
    let mut parser = ArgParser::new();
    parser.add_argument(arg).unwrap();
    assert!(parser.contains_arg("beans"));
    assert!(parser.contains_arg("-b"));
    assert!(parser.contains_arg("--beans"));
}

#[test]
fn get_args_works() {
    let mut parser = ArgParser::new();
    parser
        .add_argument(
            Argument::with_type("vector")
                .name("beans")
                .long("--beans")
                .short("-b")
                .required(false),
        )
        .unwrap();
    let long = parser.get_arg("--beans");
    let short = parser.get_arg("-b");
    let name = parser.get_arg("beans");
    assert!(name.is_some() && short.is_some() && long.is_some());
}

#[test]
fn parses_correctly() {
    let mut parser = ArgParser::new();
    parser
        .add_argument(
            Argument::with_type("text")
                .name("beans")
                .long("--beans")
                .short("-b")
                .required(true),
        )
        .unwrap();
    parser
        .add_argument(
            Argument::with_type("vector")
                .name("bananas")
                .long("--bananas")
                .short("-s")
                .required(true),
        )
        .unwrap();
    parser
        .add_argument(
            Argument::with_type("flag")
                .name("carbon")
                .long("--carbon")
                .short("-c")
                .required(false),
        )
        .unwrap();
    parser
        .add_argument(
            Argument::with_type("flag")
                .name("hydrogen")
                .short("-H")
                .required(false),
        )
        .unwrap();
    parser
        .add_argument(
            Argument::with_type("flag")
                .name("kryptonite")
                .short("-p")
                .required(false),
        )
        .unwrap();
    parser
        .add_argument(
            Argument::with_type("flag")
                .name("iron")
                .short("-i")
                .required(false),
        )
        .unwrap();
    parser
        .add_argument(
            Argument::with_type("flag")
                .name("corn")
                .long("--corn")
                .required(false),
        )
        .unwrap();
    let args = [
        "--bananas",
        "contains potassium",
        "contains calcium",
        "-b",
        "can cause gas",
        "-Hcp",
        // negation
        "-no-i",
        "--no-corn",
    ];
    let parsed = parser.parse_args(&args).ok().unwrap();
    assert!(parsed.args.get("bananas").is_some());
    assert!(parsed.args.get("beans").is_some());
    assert!(parsed.args.get("carbon").is_some());
    assert!(parsed.args.get("hydrogen").is_some());
    assert!(parsed.args.get("iron").is_some());
    assert!(parsed.args.get("corn").is_some());
    assert!(parsed.args.get("hydrocarbon").is_none());

    // assert negation
    let iron = parsed.args.get("iron").unwrap();
    let value = match iron {
        ArgValue::Flag(val) => val,
        _ => &true,
    };
    assert!(!value);
    let corn = parsed.args.get("corn").unwrap();
    let value = match corn {
        ArgValue::Flag(val) => val,
        _ => &true,
    };
    assert!(!value);
}

#[test]
fn option_without_form_or_name_is_invalid_spec() {
    let mut parser = ArgParser::new();
    assert_eq!(
        parser.add_argument(Argument::with_type("vector").name("beans").required(true)),
        Err(RegistrationError::InvalidSpec)
    );
    assert_eq!(
        parser.add_argument(
            Argument::with_type("vector")
                .long("--beans")
                .short("-b")
                .required(true)
        ),
        Err(RegistrationError::InvalidSpec)
    );
    assert!(parser.parser.is_empty());
    assert!(!parser.contains_arg("--beans"));
}

#[test]
fn duplicate_name_short_or_long_is_refused() {
    let mut parser = ArgParser::new();
    parser
        .add_argument(option("vector", "beans", Some("-b"), Some("--beans"), true))
        .unwrap();
    assert_eq!(
        parser.add_argument(option("vector", "beans", Some("-x"), Some("--bananas"), true)),
        Err(RegistrationError::DuplicateAlias)
    );
    assert_eq!(
        parser.add_argument(option("vector", "bananas", Some("-b"), Some("--bananas"), true)),
        Err(RegistrationError::DuplicateAlias)
    );
    assert_eq!(
        parser.add_argument(option("vector", "bananas", Some("-x"), Some("--beans"), true)),
        Err(RegistrationError::DuplicateAlias)
    );
    // a name may not be the short form of another option either
    assert_eq!(
        parser.add_argument(option("flag", "-b", Some("-x"), None, false)),
        Err(RegistrationError::DuplicateAlias)
    );
    assert_eq!(parser.parser.len(), 1);
    assert!(!parser.contains_arg("bananas"));
    assert!(!parser.contains_arg("-x"));
    assert_eq!(
        parser.add_argument(option("vector", "bananas", Some("-x"), Some("--bananas"), true)),
        Ok(())
    );
    assert_eq!(parser.parser.len(), 2);
    assert_eq!(parser.get_arg("-x").unwrap().name, "bananas");
    assert_eq!(parser.get_arg("--beans").unwrap().name, "beans");
}

#[test]
fn kinds_by_identity() {
    let parser = elements();
    assert!(parser.is_flag("carbon"));
    assert!(parser.is_flag("-c"));
    assert!(parser.is_flag("--carbon"));
    assert!(!parser.is_flag("-b"));
    assert!(!parser.is_flag("-z"));
    assert!(parser.is_text("--beans"));
    assert!(parser.is_text("beans"));
    assert!(!parser.is_text("-s"));
    assert!(!parser.is_text("nothing"));
    assert!(parser.get_arg("nothing").is_none());
    assert!(!parser.contains_arg(""));
}

#[test]
fn missing_required_option_is_named() {
    let mut parser = ArgParser::new();
    parser
        .add_argument(option("text", "beans", Some("-b"), Some("--beans"), true))
        .unwrap();
    parser
        .add_argument(option("flag", "bananas", None, Some("--bananas"), true))
        .unwrap();
    parser
        .add_argument(option("flag", "corn", Some("-c"), None, true))
        .unwrap();
    assert_eq!(
        failure(&mut parser, &["--beans", "hello"]),
        ParseError::MissingRequired("--bananas".to_string())
    );
    assert_eq!(
        failure(&mut parser, &["--bananas"]),
        ParseError::MissingRequired("-b/--beans".to_string())
    );
    assert_eq!(
        failure(&mut parser, &["--bananas", "-b", "x"]),
        ParseError::MissingRequired("-c".to_string())
    );
    let found = parsed(&mut parser, &["--bananas", "-b", "x", "-c"]);
    assert_eq!(text_of(&found, "beans"), Some("x".to_string()));
}

#[test]
fn unknown_option_is_unrecognized() {
    let mut parser = elements();
    assert_eq!(failure(&mut parser, &["--unknown"]), ParseError::UnrecognizedToken);
    assert_eq!(failure(&mut parser, &["-z"]), ParseError::UnrecognizedToken);
    assert_eq!(failure(&mut parser, &["-"]), ParseError::UnrecognizedToken);
    assert_eq!(failure(&mut parser, &["--"]), ParseError::UnrecognizedToken);
    assert_eq!(failure(&mut parser, &["-cz"]), ParseError::UnrecognizedToken);
    assert_eq!(
        failure(&mut parser, &["-c", "--carbonn"]),
        ParseError::UnrecognizedToken
    );
}

#[test]
fn plain_tokens_are_passed_over() {
    let mut parser = elements();
    let found = parsed(&mut parser, &["stray", "-c", "more", "no-corn", ""]);
    assert_eq!(flag_of(&found, "carbon"), Some(true));
    assert_eq!(found.args.len(), 1);
    // the name alone is no option: only the short and long forms begin with a dash
    let found = parsed(&mut parser, &["carbon"]);
    assert_eq!(found.args.len(), 0);
    let found = parsed(&mut parser, &[]);
    assert_eq!(found.args.len(), 0);
}

#[test]
fn flags_and_their_negations() {
    let mut parser = elements();
    let found = parsed(&mut parser, &["-c", "-H", "--corn"]);
    assert_eq!(flag_of(&found, "carbon"), Some(true));
    assert_eq!(flag_of(&found, "hydrogen"), Some(true));
    assert_eq!(flag_of(&found, "corn"), Some(true));
    let found = parsed(&mut parser, &["--no-carbon", "-no-H", "--no-corn"]);
    assert_eq!(flag_of(&found, "carbon"), Some(false));
    assert_eq!(flag_of(&found, "hydrogen"), Some(false));
    assert_eq!(flag_of(&found, "corn"), Some(false));
    let found = parsed(&mut parser, &["-c", "--no-carbon"]);
    assert_eq!(flag_of(&found, "carbon"), Some(false));
}

#[test]
fn negation_of_text_vector_or_unknown_is_refused() {
    let mut parser = elements();
    assert_eq!(
        failure(&mut parser, &["--no-beans", "x"]),
        ParseError::NegationOnNonFlag
    );
    assert_eq!(failure(&mut parser, &["-no-b", "x"]), ParseError::NegationOnNonFlag);
    assert_eq!(
        failure(&mut parser, &["--no-bananas"]),
        ParseError::NegationOnNonFlag
    );
    assert_eq!(
        failure(&mut parser, &["--no-unknown"]),
        ParseError::NegationOnNonFlag
    );
    assert_eq!(failure(&mut parser, &["-no-z"]), ParseError::NegationOnNonFlag);
}

#[test]
fn every_marker_in_a_negated_token_is_taken_out() {
    let mut parser = ArgParser::new();
    parser
        .add_argument(option("flag", "odd", None, Some("--a--b"), false))
        .unwrap();
    let found = parsed(&mut parser, &["--no-a--no-b"]);
    assert_eq!(flag_of(&found, "odd"), Some(false));
    let found = parsed(&mut parser, &["--no-a--b"]);
    assert_eq!(flag_of(&found, "odd"), Some(false));
    assert_eq!(
        failure(&mut parser, &["--no-a--no-c"]),
        ParseError::NegationOnNonFlag
    );
}

#[test]
fn text_takes_exactly_one_value() {
    let mut parser = elements();
    let found = parsed(&mut parser, &["-b", "can cause gas"]);
    assert_eq!(text_of(&found, "beans"), Some("can cause gas".to_string()));
    let found = parsed(&mut parser, &["--beans", "x", "-c"]);
    assert_eq!(text_of(&found, "beans"), Some("x".to_string()));
    assert_eq!(flag_of(&found, "carbon"), Some(true));
    assert_eq!(failure(&mut parser, &["-b"]), ParseError::MissingValue);
    assert_eq!(failure(&mut parser, &["-b", "-c"]), ParseError::MissingValue);
    assert_eq!(failure(&mut parser, &["-b", "--unknown"]), ParseError::MissingValue);
    assert_eq!(
        failure(&mut parser, &["-b", "x", "y"]),
        ParseError::UnrecognizedToken
    );
}

#[test]
fn vector_takes_every_plain_token() {
    let mut parser = elements();
    let found = parsed(
        &mut parser,
        &["--bananas", "contains potassium", "contains calcium", "-c", "z"],
    );
    assert_eq!(
        vector_of(&found, "bananas"),
        Some(vec![
            "contains potassium".to_string(),
            "contains calcium".to_string()
        ])
    );
    assert_eq!(flag_of(&found, "carbon"), Some(true));
    let found = parsed(&mut parser, &["-s"]);
    assert_eq!(vector_of(&found, "bananas"), Some(vec![]));
    let found = parsed(&mut parser, &["-s", "-c"]);
    assert_eq!(vector_of(&found, "bananas"), Some(vec![]));
}

#[test]
fn bundle_sets_every_option_it_names() {
    let mut parser = elements();
    let found = parsed(&mut parser, &["-Hc"]);
    assert_eq!(flag_of(&found, "hydrogen"), Some(true));
    assert_eq!(flag_of(&found, "carbon"), Some(true));
    assert_eq!(found.args.len(), 2);
    // dashes inside a bundle are left out
    let found = parsed(&mut parser, &["-H-c"]);
    assert_eq!(found.args.len(), 2);
    // an option of another kind named in a bundle is stored as a set flag
    let found = parsed(&mut parser, &["-cb"]);
    assert_eq!(flag_of(&found, "beans"), Some(true));
    assert_eq!(flag_of(&found, "carbon"), Some(true));
}

#[test]
fn short_option_of_more_than_one_byte_is_read_as_a_bundle() {
    let mut parser = elements();
    assert_eq!(failure(&mut parser, &["-é"]), ParseError::UnrecognizedToken);
}

#[test]
fn payload_kinds() {
    assert_eq!(ArgValue::Flag(false).arg_type(), "flag");
    assert_eq!(ArgValue::Text("x".to_string()).arg_type(), "text");
    assert_eq!(ArgValue::Vector(vec![]).arg_type(), "vector");
    assert!(matches!(ArgValue::default(), ArgValue::Flag(true)));
    assert_eq!(ParsedArguments::new().args.len(), 0);
    assert_eq!(ParsedArguments::default().args.len(), 0);
}
