use argparse::defarg::arg::{is_long_option, is_short_option, Argument};
use argparse::defarg::atypes::AType;

#[test]
fn works_as_intended() {
    let our_arg = Argument::with_type("flag")
        .name("radio")
        .long("--radio")
        .short("-r")
        .required(false);
    assert!(our_arg.is_valid());
}

#[test]
fn option_without_forms_is_not_valid() {
    let our_arg = Argument::with_type("vector").required(false);
    assert!(!our_arg.is_valid());
    let named = Argument::new("vector").name("beans");
    assert!(!named.is_valid());
    let unnamed = Argument::new("vector").short("-b").long("--beans");
    assert!(!unnamed.is_valid());
    assert!(Argument::new("text").name("beans").short("-b").is_valid());
    assert!(Argument::new("text").name("beans").long("--beans").is_valid());
    assert!(!Argument::default().is_valid());
}

#[test]
fn short_and_long_forms() {
    assert!(is_short_option("-k"));
    assert!(!is_short_option("--krypton"));
    assert!(!is_short_option("--"));
    assert!(!is_short_option("-"));
    assert!(!is_short_option("-kr"));
    assert!(!is_short_option("k"));
    assert!(!is_short_option("-é"));
    assert!(!is_short_option(""));
    assert!(is_long_option("--krypton"));
    assert!(is_long_option("--k"));
    assert!(!is_long_option("--"));
    assert!(!is_long_option("-krypton"));
    assert!(!is_long_option("krypton"));
}

#[test]
fn builder_sets_the_fields() {
    let arg = Argument::new("text")
        .name("beans")
        .long("--beans")
        .short("-b")
        .required(true);
    assert_eq!(arg.atype, AType::Text);
    assert_eq!(arg.name, "beans");
    assert_eq!(arg.short, Some("-b".to_string()));
    assert_eq!(arg.long, Some("--beans".to_string()));
    assert!(arg.required);
    assert_eq!(arg.identity(), "-b/--beans");
    assert!(arg.identified_by("beans"));
    assert!(arg.identified_by("-b"));
    assert!(arg.identified_by("--beans"));
    assert!(!arg.identified_by("-B"));
    assert_eq!(Argument::new("flag").name("x").short("-x").identity(), "-x");
    assert_eq!(Argument::new("flag").name("x").long("--x").identity(), "--x");
    assert_eq!(Argument::new("flag").name("x").identity(), "");
    let blank = Argument::default();
    assert_eq!(blank.atype, AType::Flag);
    assert_eq!(blank.name, "");
    assert_eq!(blank.short, None);
    assert_eq!(blank.long, None);
    assert!(!blank.required);
}
