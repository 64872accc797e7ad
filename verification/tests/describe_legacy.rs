use clipv::describe::{
    default_details_formatters, default_summary_formatters, Arg, ArgGroup, ArgType, AsArg,
    Choices, Commands,
};

enum Number {}

fn number_argument() -> Vec<Arg> {
    vec![
        Arg::new("One", None),
        Arg::new("Two", Some("Second argument")),
        Arg::new("Three", None),
    ]
}

impl AsArg for Number {
    fn arguments() -> ArgType {
        ArgType::Choices(Choices(number_argument()))
    }
}

#[test]
fn describe_it_should_format_one_layer_arguments_nominale() {
    // group of argument
    assert_eq!(
        ArgType::Group(ArgGroup(number_argument())).summarize(&default_summary_formatters()),
        Some("<One> <Two> <Three>".to_string()),
    );
    // a list of possible choices
    assert_eq!(
        Number::arguments().summarize(&default_summary_formatters()),
        Some("<One|Two|Three>".to_string())
    );

    assert_eq!(
        ArgType::Commands(Commands(number_argument())).summarize(&default_summary_formatters()),
        Some("{One|Two|Three}".to_string())
    );
}

#[test]
fn describe_it_should_format_one_layer_arguments_alternate() {
    // group of argument
    assert_eq!(
        ArgType::Group(ArgGroup(number_argument())).details(&default_details_formatters()),
        Some(format!("One\nTwo{ws:5}Second argument\nThree\n", ws = ' '))
    );
    // a list of possible choices
    assert_eq!(
        Number::arguments().details(&default_details_formatters()),
        Some(format!("- One\n- Two{ws:5}Second argument\n- Three\n", ws = ' '))
    );

    assert_eq!(
        ArgType::Commands(Commands(number_argument())).details(&default_details_formatters()),
        Some(format!("One\nTwo{ws:5}Second argument\nThree\n", ws = ' '))
    );
}

struct Tata {}

enum Complexe {}

impl AsArg for Tata {
    fn arguments() -> ArgType {
        ArgType::Group(ArgGroup(vec![
            Arg::new(
                "titi",
                Some("This titi belongs to the Tata struct and is an unsigned integer"),
            ),
            Arg::with_type("tutu", Some("tutu is the second argument"), Number::arguments()),
        ]))
    }
}

impl AsArg for Complexe {
    fn arguments() -> ArgType {
        ArgType::Choices(Choices(vec![
            Arg::with_type("One", None, Tata::arguments()),
            Arg::with_type(
                "Two",
                None,
                ArgType::Group(ArgGroup(vec![
                    Arg::new("test", Some("This test belongs to the Two value of complexe")),
                    Arg::with_type("tata", None, Tata::arguments()),
                ])),
            ),
            Arg::new("Three", None),
        ]))
    }
}

struct Test {}

impl AsArg for Test {
    fn arguments() -> ArgType {
        ArgType::Group(ArgGroup(vec![
            Arg::with_type("tata", Some("a list of possibilities"), Number::arguments()),
            Arg::new("toto", Some("number of something")),
            Arg::with_type(
                "titi",
                Some("This titi is part of the whole Test structure and is a struct"),
                Tata::arguments(),
            ),
            Arg::with_type("complexe", None, Complexe::arguments()),
        ]))
    }
}

#[test]
fn describe_it_should_display_recusion_behavior() {
    assert_eq!(
        Test::arguments().details(&default_details_formatters()),
        Some(
            r#"tata    a list of possibilities
  - One
  - Two     Second argument
  - Three
toto    number of something
titi    This titi belongs to the Tata struct and is an unsigned integer
tutu    tutu is the second argument
  - One
  - Two     Second argument
  - Three
- titi    This titi belongs to the Tata struct and is an unsigned integer
tutu    tutu is the second argument
  - One
  - Two     Second argument
  - Three
- test    This test belongs to the Two value of complexe
titi    This titi belongs to the Tata struct and is an unsigned integer
tutu    tutu is the second argument
  - One
  - Two     Second argument
  - Three
- Three
"#
            .to_string()
        )
    );
}

#[test]
fn a_leaf_type_has_no_summary_and_no_details() {
    assert_eq!(ArgType::Value.summarize(&default_summary_formatters()), None);
    assert_eq!(ArgType::Value.details(&default_details_formatters()), None);
}
