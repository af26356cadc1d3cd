use argparse::{Argument, ParseError, ParsedArguments, Parser, Value};

fn declare(kind: &str, name: &str, invocators: &[&str], required: bool) -> Argument {
    let mut argument = Argument::with_type(kind).name(name);
    for invocator in invocators {
        argument = argument.invoke_with(invocator);
    }
    argument.required(required)
}

fn parser_of(declared: &[(&str, &str, &[&str], bool)]) -> Parser {
    let mut parser = Parser::with_capacity(declared.len());
    for (kind, name, invocators, required) in declared {
        parser
            .add_argument(declare(kind, name, invocators, *required))
            .unwrap();
    }
    parser
}

fn parsed(parser: &Parser, tokens: &[&str]) -> ParsedArguments {
    match parser.parse_arguments(tokens) {
        Ok(parsed) => parsed,
        Err(error) => panic!("parse failed: {:?}", error),
    }
}

fn failure(parser: &Parser, tokens: &[&str]) -> ParseError {
    match parser.parse_arguments(tokens) {
        Ok(_) => panic!("parse did not fail"),
        Err(error) => error,
    }
}

#[test]
fn flag_is_true_when_given_and_false_when_negated() {
    let parser = parser_of(&[("flag", "sleep", &["--sleep", "-s", "zz"], false)]);
    for token in ["sleep", "--sleep", "-s", "zz"] {
        let found = parsed(&parser, &[token]);
        assert_eq!(found.get_value("sleep"), Some(&Value::Flag(true)));
        assert_eq!(found.count(), 1);
    }
    for token in ["no-sleep", "--no-sleep", "-no-s", "no-zz"] {
        let found = parsed(&parser, &[token]);
        assert_eq!(found.get_value("sleep"), Some(&Value::Flag(false)));
        assert_eq!(found.count(), 1);
    }
}

#[test]
fn flag_given_once_among_other_tokens() {
    let parser = parser_of(&[
        ("flag", "sleep", &["--sleep"], false),
        ("word", "name", &["--name"], false),
        ("vector", "colors", &["--colors"], false),
    ]);
    let found = parsed(
        &parser,
        &["stray", "--name", "Jo", "--no-sleep", "--colors", "red", "blue"],
    );
    assert_eq!(found.get_value("sleep"), Some(&Value::Flag(false)));
    let found = parsed(
        &parser,
        &["--colors", "red", "--sleep", "--name", "Jo", "stray"],
    );
    assert_eq!(found.get_value("sleep"), Some(&Value::Flag(true)));
}

#[test]
fn the_last_invocation_of_a_flag_wins() {
    let parser = parser_of(&[("flag", "sleep", &["--sleep"], false)]);
    let found = parsed(&parser, &["--sleep", "--no-sleep"]);
    assert_eq!(found.get_value("sleep"), Some(&Value::Flag(false)));
    let found = parsed(&parser, &["--no-sleep", "--sleep"]);
    assert_eq!(found.get_value("sleep"), Some(&Value::Flag(true)));
    assert_eq!(found.count(), 1);
}

#[test]
fn word_takes_the_next_token() {
    let parser = parser_of(&[("word", "w", &["--w"], false)]);
    let found = parsed(&parser, &["--w", "value"]);
    assert_eq!(found.get_value("w"), Some(&Value::Word("value".to_string())));
    assert_eq!(found.count(), 1);
    assert!(found.contains("w"));
    assert!(!found.contains("--w"));
}

#[test]
fn word_alone_is_missing_value() {
    let parser = parser_of(&[("word", "w", &["--w"], false)]);
    assert_eq!(failure(&parser, &["--w"]), ParseError::MissingValue);
}

#[test]
fn word_followed_by_argument_is_missing_value() {
    let parser = parser_of(&[
        ("word", "w", &["--w"], false),
        ("flag", "a", &["-a"], false),
        ("flag", "b", &["-b"], false),
    ]);
    assert_eq!(failure(&parser, &["--w", "-a"]), ParseError::MissingValue);
    assert_eq!(failure(&parser, &["--w", "--w"]), ParseError::MissingValue);
    assert_eq!(failure(&parser, &["--w", "-no-a"]), ParseError::MissingValue);
    assert_eq!(failure(&parser, &["--w", "-ab"]), ParseError::MissingValue);
    assert_eq!(failure(&parser, &["--w", "ab"]), ParseError::MissingValue);
}

#[test]
fn word_takes_a_token_that_is_no_argument() {
    let parser = parser_of(&[
        ("word", "w", &["--w"], false),
        ("flag", "a", &["-a"], false),
        ("word", "b", &["-b"], false),
    ]);
    // `-b` is no flag, so `-ab` is no cluster
    let found = parsed(&parser, &["--w", "-ab"]);
    assert_eq!(found.get_value("w"), Some(&Value::Word("-ab".to_string())));
    let found = parsed(&parser, &["--w", "--unknown"]);
    assert_eq!(
        found.get_value("w"),
        Some(&Value::Word("--unknown".to_string()))
    );
    let found = parsed(&parser, &["--w", "-ax"]);
    assert_eq!(found.get_value("w"), Some(&Value::Word("-ax".to_string())));
    assert!(!found.contains("a"));
}

#[test]
fn empty_and_single_dash_tokens_count_as_empty_clusters() {
    let parser = parser_of(&[
        ("word", "w", &["--w"], false),
        ("vector", "v", &["-v"], false),
    ]);
    assert_eq!(failure(&parser, &["--w", ""]), ParseError::MissingValue);
    assert_eq!(failure(&parser, &["--w", "-"]), ParseError::MissingValue);
    assert_eq!(failure(&parser, &["-v", "-"]), ParseError::EmptyVector);
    let found = parsed(&parser, &["-v", "a", "", "b"]);
    assert_eq!(found.get_value("v"), Some(&Value::Vector(vec!["a".to_string()])));
    let found = parsed(&parser, &["", "-"]);
    assert_eq!(found.count(), 0);
}

#[test]
fn vector_takes_tokens_up_to_the_end() {
    let parser = parser_of(&[("vector", "v", &["-v"], false)]);
    let found = parsed(&parser, &["-v", "a", "b", "c"]);
    assert_eq!(
        found.get_value("v"),
        Some(&Value::Vector(vec![
            "a".to_string(),
            "b".to_string(),
            "c".to_string()
        ]))
    );
}

#[test]
fn vector_alone_is_empty_vector() {
    let parser = parser_of(&[("vector", "v", &["-v"], false)]);
    assert_eq!(failure(&parser, &["-v"]), ParseError::EmptyVector);
}

#[test]
fn vector_stops_at_the_next_argument() {
    let parser = parser_of(&[
        ("vector", "v", &["-v"], false),
        ("flag", "a", &["-a"], false),
        ("flag", "b", &["-b"], false),
        ("word", "w", &["--w"], false),
    ]);
    let found = parsed(&parser, &["-v", "x", "y", "-a", "z"]);
    assert_eq!(
        found.get_value("v"),
        Some(&Value::Vector(vec!["x".to_string(), "y".to_string()]))
    );
    assert_eq!(found.get_value("a"), Some(&Value::Flag(true)));
    assert_eq!(found.count(), 2);
    let found = parsed(&parser, &["-v", "x", "-ab", "--w", "y"]);
    assert_eq!(found.get_value("v"), Some(&Value::Vector(vec!["x".to_string()])));
    assert_eq!(found.get_value("a"), Some(&Value::Flag(true)));
    assert_eq!(found.get_value("b"), Some(&Value::Flag(true)));
    assert_eq!(found.get_value("w"), Some(&Value::Word("y".to_string())));
    assert_eq!(failure(&parser, &["-v", "-a"]), ParseError::EmptyVector);
    assert_eq!(failure(&parser, &["-v", "-ab"]), ParseError::EmptyVector);
    assert_eq!(failure(&parser, &["-v", "--w", "x"]), ParseError::EmptyVector);
}

#[test]
fn vector_given_twice_keeps_the_last() {
    let parser = parser_of(&[("vector", "v", &["-v"], false)]);
    let found = parsed(&parser, &["-v", "a", "b", "-v", "c"]);
    assert_eq!(found.get_value("v"), Some(&Value::Vector(vec!["c".to_string()])));
}

#[test]
fn cluster_sets_every_flag() {
    let parser = parser_of(&[
        ("flag", "alpha", &["-a"], false),
        ("flag", "beta", &["-b"], false),
    ]);
    let found = parsed(&parser, &["-ab"]);
    assert_eq!(found.get_value("alpha"), Some(&Value::Flag(true)));
    assert_eq!(found.get_value("beta"), Some(&Value::Flag(true)));
    assert_eq!(found.count(), 2);
    let found = parsed(&parser, &["-ba"]);
    assert_eq!(found.count(), 2);
    let found = parsed(&parser, &["-aa"]);
    assert_eq!(found.get_value("alpha"), Some(&Value::Flag(true)));
    assert_eq!(found.count(), 1);
}

#[test]
fn cluster_with_a_word_is_abandoned() {
    let parser = parser_of(&[
        ("flag", "alpha", &["-a"], false),
        ("word", "beta", &["-b"], false),
    ]);
    let found = parsed(&parser, &["-ab"]);
    assert!(!found.contains("alpha"));
    assert!(!found.contains("beta"));
    assert_eq!(found.count(), 0);
}

#[test]
fn cluster_with_an_unknown_character_is_abandoned() {
    let parser = parser_of(&[("flag", "alpha", &["-a"], false)]);
    let found = parsed(&parser, &["-ax"]);
    assert_eq!(found.count(), 0);
}

#[test]
fn explicit_invocator_goes_before_cluster() {
    let parser = parser_of(&[
        ("flag", "alpha", &["-a"], false),
        ("flag", "beta", &["-b"], false),
        ("word", "both", &["-ab"], false),
    ]);
    let found = parsed(&parser, &["-ab", "x"]);
    assert_eq!(found.get_value("both"), Some(&Value::Word("x".to_string())));
    assert!(!found.contains("alpha"));
    assert!(!found.contains("beta"));
}

#[test]
fn bare_cluster_sets_flags() {
    let parser = parser_of(&[
        ("flag", "xylo", &["x"], false),
        ("flag", "radio", &["--radio", "r"], false),
    ]);
    let found = parsed(&parser, &["rx"]);
    assert_eq!(found.get_value("xylo"), Some(&Value::Flag(true)));
    assert_eq!(found.get_value("radio"), Some(&Value::Flag(true)));
}

#[test]
fn unrecognized_tokens_are_passed_over() {
    let parser = parser_of(&[("flag", "sleep", &["--sleep"], false)]);
    let found = parsed(&parser, &["stray", "--unknown", "-q", "--sleep", "more"]);
    assert_eq!(found.get_value("sleep"), Some(&Value::Flag(true)));
    assert_eq!(found.count(), 1);
    let found = parsed(&parser, &["--unknown"]);
    assert_eq!(found.count(), 0);
    let found = parsed(&parser, &[]);
    assert_eq!(found.count(), 0);
    assert!(found.get_value("sleep").is_none());
}

#[test]
fn negation_on_word_or_vector_is_refused() {
    let parser = parser_of(&[
        ("word", "w", &["--w", "-w"], false),
        ("vector", "v", &["--v"], false),
    ]);
    assert_eq!(
        failure(&parser, &["--no-w", "x"]),
        ParseError::NegationOnNonFlag
    );
    assert_eq!(failure(&parser, &["-no-w"]), ParseError::NegationOnNonFlag);
    assert_eq!(failure(&parser, &["no-w", "x"]), ParseError::NegationOnNonFlag);
    assert_eq!(
        failure(&parser, &["--no-v", "x", "y"]),
        ParseError::NegationOnNonFlag
    );
}

#[test]
fn missing_required_names_the_argument() {
    let parser = parser_of(&[
        ("word", "beans", &["--beans", "-b"], true),
        ("flag", "bananas", &["--bananas"], true),
        ("vector", "corn", &[], true),
    ]);
    assert_eq!(
        failure(&parser, &["--bananas", "corn", "x"]),
        ParseError::MissingRequired("-b/--beans".to_string())
    );
    assert_eq!(
        failure(&parser, &["--beans", "hello"]),
        ParseError::MissingRequired("--bananas".to_string())
    );
    assert_eq!(
        failure(&parser, &["--beans", "hello", "--bananas"]),
        ParseError::MissingRequired("corn".to_string())
    );
    // the first in the order of registration is named
    assert_eq!(
        failure(&parser, &[]),
        ParseError::MissingRequired("-b/--beans".to_string())
    );
    let found = parsed(&parser, &["corn", "x", "-b", "hello", "--no-bananas"]);
    assert_eq!(found.count(), 3);
    assert_eq!(found.get_value("bananas"), Some(&Value::Flag(false)));
}

#[test]
fn an_error_of_the_walk_goes_before_a_missing_argument() {
    let parser = parser_of(&[
        ("word", "beans", &["--beans"], true),
        ("vector", "corn", &["--corn"], false),
    ]);
    assert_eq!(failure(&parser, &["--corn"]), ParseError::EmptyVector);
    assert_eq!(failure(&parser, &["--beans"]), ParseError::MissingValue);
}

#[test]
fn values_are_taken_verbatim() {
    let parser = parser_of(&[
        ("word", "w", &["--w"], false),
        ("vector", "v", &["--v"], false),
    ]);
    let found = parsed(&parser, &["--w", "a b  c", "--v", "héllo wörld", "日本語", "x=y"]);
    assert_eq!(found.get_value("w"), Some(&Value::Word("a b  c".to_string())));
    assert_eq!(
        found.get_value("v"),
        Some(&Value::Vector(vec![
            "héllo wörld".to_string(),
            "日本語".to_string(),
            "x=y".to_string()
        ]))
    );
}

#[test]
fn parser_can_be_used_for_several_parses() {
    let parser = parser_of(&[("flag", "sleep", &["--sleep"], false)]);
    let first = parsed(&parser, &["--sleep"]);
    let second = parsed(&parser, &["--no-sleep"]);
    let third = parsed(&parser, &[]);
    assert_eq!(first.get_value("sleep"), Some(&Value::Flag(true)));
    assert_eq!(second.get_value("sleep"), Some(&Value::Flag(false)));
    assert_eq!(third.get_value("sleep"), None);
}

#[test]
fn empty_outcomes() {
    let fresh = ParsedArguments::new();
    assert_eq!(fresh.count(), 0);
    assert!(!fresh.contains("x"));
    assert!(fresh.get_value("x").is_none());
    let roomy = ParsedArguments::with_capacity(16);
    assert_eq!(roomy.count(), 0);
    let default = ParsedArguments::default();
    assert_eq!(default.count(), 0);
}
