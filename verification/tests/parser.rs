use argparse::{Argument, Parser, Value};

#[test]
fn adding_argument() {
    let mut parser = Parser::with_capacity(1);
    parser
        .add_argument(
            Argument::with_type("flag")
                .name("pizza")
                // redundant as name is automatically added as an invoke option
                .invoke_with("pizza")
                .invoke_with("--pizza")
                .invoke_with("-p")
                .required(false),
        )
        .unwrap();
    assert!(parser.contains_argument("pizza"));
}

#[test]
fn get_argument() {
    let mut parser = Parser::with_capacity(2);
    parser
        .add_argument(
            Argument::with_type("flag")
                .name("pizza")
                .invoke_with("--pizza")
                .invoke_with("-p")
                .required(false),
        )
        .unwrap();
    parser
        .add_argument(
            Argument::with_type("vector")
                .name("pineapple")
                .invoke_with("pineapple")
                .invoke_with("--pineapple")
                .invoke_with("-P")
                .required(false),
        )
        .unwrap();
    let pineapple = parser.get_argument("pineapple");
    assert!(pineapple.is_some());
    assert!(pineapple.unwrap().same_as("--pineapple"));
}

#[test]
fn parsing_test() {
    let mut parser = Parser::with_capacity(8);
    parser
        .add_argument(
            Argument::with_type("flag")
                .name("sleep")
                .invoke_with("--sleep")
                .invoke_with("-s")
                .required(false),
        )
        .unwrap();
    parser
        .add_argument(
            Argument::with_type("word")
                .name("my-name")
                .invoke_with("--my-name")
                .invoke_with("-n"),
        )
        .unwrap();
    parser
        .add_argument(
            Argument::with_type("vector")
                .name("dragon-colors")
                .invoke_with("--dragon-colors")
                .invoke_with("-d")
                .required(true),
        )
        .unwrap();
    parser
        .add_argument(
            Argument::with_type("flag")
                .name("pass")
                .invoke_with("--pass")
                .invoke_with("-p"),
        )
        .unwrap();
    parser
        .add_argument(
            Argument::with_type("flag")
                .name("mangle")
                .invoke_with("--mangle")
                .invoke_with("-M"),
        )
        .unwrap();
    parser
        .add_argument(Argument::with_type("word").name("cheese"))
        .unwrap();
    parser
        .add_argument(Argument::with_type("flag").name("xylo").invoke_with("x"))
        .unwrap();
    parser
        .add_argument(
            Argument::with_type("flag")
                .name("radio")
                .invoke_with("--radio")
                .invoke_with("r"),
        )
        .unwrap();
    let parsed = parser
        .parse_arguments(&[
            "-no-s",
            "--my-name",
            "Jondo",
            "-d",
            "red",
            "blue",
            "orange",
            "-Mp",
            "cheese",
            "swiss",
            "rx",
        ])
        .ok()
        .unwrap();
    assert!(parsed.get_value("sleep").is_some());
    assert!(parsed
        .get_value("sleep")
        .unwrap()
        .eq(&Value::from(false)));
    assert!(parsed.get_value("my-name").is_some());
    assert!(parsed
        .get_value("my-name")
        .unwrap()
        .eq(&Value::from("Jondo")));
    assert!(parsed.get_value("dragon-colors").is_some());
    assert!(parsed
        .get_value("dragon-colors")
        .unwrap()
        .eq(&Value::from(&["red", "blue", "orange"][..])));
    assert!(parsed.get_value("mangle").is_some());
    assert!(parsed
        .get_value("mangle")
        .unwrap()
        .eq(&Value::from(true)));
    assert!(parsed.get_value("pass").is_some());
    assert!(parsed
        .get_value("pass")
        .unwrap()
        .eq(&Value::from(true)));
    assert!(parsed.get_value("cheese").is_some());
    assert!(parsed
        .get_value("cheese")
        .unwrap()
        .eq(&Value::from("swiss")));
    assert!(parsed.get_value("radio").is_some());
    assert!(parsed
        .get_value("radio")
        .unwrap()
        .eq(&Value::from(true)));
    assert!(parsed.get_value("xylo").is_some());
    assert!(parsed
        .get_value("xylo")
        .unwrap()
        .eq(&Value::from(true)));
}
