use argparse::{Argument, ArgumentType, Parser, RegistrationError};

fn flag(name: &str, invocators: &[&str]) -> Argument {
    let mut argument = Argument::with_type("flag").name(name);
    for invocator in invocators {
        argument = argument.invoke_with(invocator);
    }
    argument
}

fn word(name: &str, invocators: &[&str]) -> Argument {
    let mut argument = Argument::with_type("word").name(name);
    for invocator in invocators {
        argument = argument.invoke_with(invocator);
    }
    argument
}

#[test]
fn unnamed_argument_is_invalid_spec() {
    let mut parser = Parser::new();
    let unnamed = Argument::with_type("vector").invoke_with("--beans");
    assert!(!unnamed.is_valid());
    assert_eq!(
        parser.add_argument(unnamed),
        Err(RegistrationError::InvalidSpec)
    );
    assert_eq!(parser.count(), 0);
    assert!(!parser.contains_argument("--beans"));
}

#[test]
fn duplicate_invocator_is_refused() {
    let mut parser = Parser::with_capacity(2);
    assert_eq!(
        parser.add_argument(flag("pizza", &["--pizza", "-p"])),
        Ok(())
    );
    assert_eq!(
        parser.add_argument(
            Argument::with_type("vector")
                .name("pineapple")
                .invoke_with("--pineapple")
                .invoke_with("-p")
        ),
        Err(RegistrationError::DuplicateAlias)
    );
    assert_eq!(parser.count(), 1);
    assert!(!parser.contains_argument("pineapple"));
    assert!(!parser.contains_argument("--pineapple"));
    assert!(parser.get_argument("-p").unwrap().same_as("pizza"));
}

#[test]
fn duplicate_name_is_refused() {
    let mut parser = Parser::new();
    assert_eq!(parser.add_argument(word("beans", &["--beans"])), Ok(()));
    assert_eq!(
        parser.add_argument(word("beans", &["--bananas"])),
        Err(RegistrationError::DuplicateAlias)
    );
    assert!(!parser.contains_argument("--bananas"));
}

#[test]
fn negated_form_collides_in_either_order() {
    let mut first = Parser::new();
    assert_eq!(first.add_argument(flag("cache", &["--cache"])), Ok(()));
    assert_eq!(
        first.add_argument(word("other", &["--no-cache"])),
        Err(RegistrationError::DuplicateAlias)
    );

    let mut second = Parser::new();
    assert_eq!(second.add_argument(word("other", &["--no-cache"])), Ok(()));
    assert_eq!(
        second.add_argument(flag("cache", &["--cache"])),
        Err(RegistrationError::DuplicateAlias)
    );
    assert_eq!(second.count(), 1);
    assert!(!second.contains_argument("cache"));
}

#[test]
fn negated_forms_of_two_flags_collide() {
    let mut parser = Parser::new();
    assert_eq!(parser.add_argument(flag("a", &["no-b"])), Ok(()));
    // the negated form of `b`'s name is `no-b`
    assert_eq!(
        parser.add_argument(flag("b", &[])),
        Err(RegistrationError::DuplicateAlias)
    );
}

#[test]
fn word_does_not_reserve_negated_forms() {
    let mut parser = Parser::new();
    assert_eq!(parser.add_argument(word("cache", &["--cache"])), Ok(()));
    assert_eq!(parser.add_argument(word("other", &["--no-cache"])), Ok(()));
    assert_eq!(parser.count(), 2);
}

#[test]
fn every_invocator_resolves_to_its_owner() {
    let declared: [(&str, &str, &[&str]); 4] = [
        ("sleep", "flag", &["--sleep", "-s"]),
        ("my-name", "word", &["--my-name", "-n"]),
        ("dragon-colors", "vector", &["--dragon-colors", "-d"]),
        ("xylo", "flag", &["x"]),
    ];
    for order in [[0usize, 1, 2, 3], [3, 2, 1, 0], [2, 0, 3, 1]] {
        let mut parser = Parser::new();
        for at in order {
            let (name, kind, invocators) = declared[at];
            let mut argument = Argument::with_type(kind).name(name);
            for invocator in invocators {
                argument = argument.invoke_with(invocator);
            }
            assert_eq!(parser.add_argument(argument), Ok(()));
        }
        assert_eq!(parser.count(), 4);
        for (name, kind, invocators) in declared {
            let by_name = parser.get_argument(name).unwrap();
            assert_eq!(by_name.get_name(), name);
            assert_eq!(by_name.get_type(), kind);
            for invocator in invocators {
                assert!(parser.contains_argument(invocator));
                assert_eq!(parser.get_argument(invocator).unwrap().get_name(), name);
            }
        }
        assert_eq!(parser.get_argument("--no-sleep").unwrap().get_name(), "sleep");
        assert_eq!(parser.get_argument("-no-s").unwrap().get_name(), "sleep");
        assert_eq!(parser.get_argument("no-x").unwrap().get_name(), "xylo");
        // negation is set aside for any kind; the walk refuses it later
        assert_eq!(
            parser.get_argument("--no-my-name").unwrap().get_name(),
            "my-name"
        );
        assert!(parser.get_argument("--unknown").is_none());
        assert!(!parser.contains_argument("--unknown"));
    }
}

#[test]
fn invocator_with_negation_marker_is_not_resolved_by_itself() {
    let mut parser = Parser::new();
    assert_eq!(parser.add_argument(word("no-op", &[])), Ok(()));
    // `no-op` is stripped to `op`, which nothing declares
    assert!(parser.get_argument("no-op").is_none());
    assert!(!parser.contains_argument("no-op"));
}

#[test]
fn negation_helpers() {
    assert_eq!(Parser::negation_type("--no-x"), 1);
    assert_eq!(Parser::negation_type("-no-x"), 2);
    assert_eq!(Parser::negation_type("no-x"), 3);
    assert_eq!(Parser::negation_type("--x"), 0);
    assert_eq!(Parser::negation_type("no"), 0);
    assert_eq!(Parser::negation_type(""), 0);
    assert!(Parser::detect_negation("--no-"));
    assert!(!Parser::detect_negation("-n"));
    assert_eq!(Parser::strip_negation("--no-corn"), "--corn");
    assert_eq!(Parser::strip_negation("-no-i"), "-i");
    assert_eq!(Parser::strip_negation("no-x"), "x");
    assert_eq!(Parser::strip_negation("--no-no-x"), "--no-x");
    assert_eq!(Parser::strip_negation("plain"), "plain");
    assert_eq!(Parser::strip_negation("x-no-y"), "x-no-y");
    assert_eq!(Parser::negate("--corn"), "--no-corn");
    assert_eq!(Parser::negate("-i"), "-no-i");
    assert_eq!(Parser::negate("x"), "no-x");
    assert_eq!(Parser::negate(""), "no-");
    assert_eq!(Parser::negate("--"), "--no-");
    for alias in ["--corn", "-i", "x", "", "-", "--", "no-x", "-no-x", "--no-x", "é"] {
        let negated = Parser::negate(alias);
        assert!(Parser::detect_negation(&negated));
        assert_eq!(Parser::strip_negation(&negated), alias);
    }
}

#[test]
fn break_apart_splits_by_character() {
    assert_eq!(
        Parser::break_apart("-Mp"),
        Some(vec!["-M".to_string(), "-p".to_string()])
    );
    assert_eq!(
        Parser::break_apart("rx"),
        Some(vec!["r".to_string(), "x".to_string()])
    );
    assert_eq!(Parser::break_apart("--long"), None);
    assert_eq!(Parser::break_apart("--"), None);
    assert_eq!(Parser::break_apart("-"), Some(vec![]));
    assert_eq!(Parser::break_apart(""), Some(vec![]));
    // every character behind the first dash gives a sub-alias, a dash too
    assert_eq!(
        Parser::break_apart("-a-b"),
        Some(vec!["-a".to_string(), "--".to_string(), "-b".to_string()])
    );
    assert_eq!(
        Parser::break_apart("-éa"),
        Some(vec!["-é".to_string(), "-a".to_string()])
    );
    assert_eq!(
        Parser::break_apart("日本"),
        Some(vec!["日".to_string(), "本".to_string()])
    );
}

#[test]
fn argument_type_names() {
    assert_eq!(ArgumentType::from_name("flag"), Some(ArgumentType::Flag));
    assert_eq!(ArgumentType::from_name("word"), Some(ArgumentType::Word));
    assert_eq!(ArgumentType::from_name("vector"), Some(ArgumentType::Vector));
    assert_eq!(ArgumentType::from_name("dragon"), None);
    assert_eq!(ArgumentType::from_name(""), None);
    assert_eq!(ArgumentType::from_name("flags"), None);
    assert_eq!(ArgumentType::Flag.as_str(), "flag");
    assert_eq!(ArgumentType::Word.as_str(), "word");
    assert_eq!(ArgumentType::Vector.as_str(), "vector");
    assert_eq!(ArgumentType::default(), ArgumentType::Flag);
    assert_eq!(String::from(ArgumentType::Vector), "vector");
    assert_eq!(String::from(ArgumentType::Word), "word");
}
