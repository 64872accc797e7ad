use clipv::describe::arg::{
    Arg, ArgDetails, ArgGroup, ArgSummarize, ArgType, AsArg, Choices,
};

enum Number {}

fn number_argument() -> Vec<Arg> {
    vec![
        Arg::new("One", None),
        Arg::new("Two", Some("Second argument")),
        Arg::new("Three", None),
    ]
}

impl AsArg for Number {
    fn arguments() -> ArgType {
        ArgType::Choices(Choices(number_argument()))
    }
}

#[test]
fn arg_it_should_format_one_layer_arguments_nominale() {
    // group of argument
    assert_eq!(ArgGroup(number_argument()).summarize(), "<One> <Two> <Three>".to_string());
    // a list of possible choices
    assert_eq!(Choices(number_argument()).summarize(), "<One|Two|Three>".to_string());
}

#[test]
fn arg_it_should_format_one_layer_arguments_alternate() {
    // group of argument
    assert_eq!(
        ArgGroup(number_argument()).details(),
        format!("One\nTwo{ws:5}Second argument\nThree\n", ws = ' ')
    );
    // a list of possible choices
    assert_eq!(
        Choices(number_argument()).details(),
        format!("- One\n- Two{ws:5}Second argument\n- Three\n", ws = ' ')
    );
}

struct Tata {}

enum Complexe {}

impl AsArg for Tata {
    fn arguments() -> ArgType {
        ArgType::Group(ArgGroup(vec![
            Arg::new(
                "titi",
                Some("This titi belongs to the Tata struct and is an unsigned integer"),
            ),
            Arg::with_type("tutu", Some("tutu is the second argument"), Number::arguments()),
        ]))
    }
}

impl AsArg for Complexe {
    fn arguments() -> ArgType {
        ArgType::Choices(Choices(vec![
            Arg::with_type("One", None, Tata::arguments()),
            Arg::with_type(
                "Two",
                None,
                ArgType::Group(ArgGroup(vec![
                    Arg::new("test", Some("This test belongs to the Two value of complexe")),
                    Arg::with_type("tata", None, Tata::arguments()),
                ])),
            ),
            Arg::new("Three", None),
        ]))
    }
}

struct Test {}

impl AsArg for Test {
    fn arguments() -> ArgType {
        ArgType::Group(ArgGroup(vec![
            Arg::with_type("tata", Some("a list of possibilities"), Number::arguments()),
            Arg::new("toto", Some("number of something")),
            Arg::with_type(
                "titi",
                Some("This titi is part of the whole Test structure and is a struct"),
                Tata::arguments(),
            ),
            Arg::with_type("complexe", None, Complexe::arguments()),
        ]))
    }
}

#[test]
fn arg_it_should_display_recusion_behavior() {
    let test = match Test::arguments() {
        ArgType::Group(group) => group.details(),
        _ => unreachable!(),
    };
    assert_eq!(
        test,
        r#"tata    a list of possibilities
  - One
  - Two     Second argument
  - Three
toto    number of something
titi    This titi belongs to the Tata struct and is an unsigned integer
tutu    tutu is the second argument
  - One
  - Two     Second argument
  - Three
- titi    This titi belongs to the Tata struct and is an unsigned integer
  tutu    tutu is the second argument
    - One
    - Two     Second argument
    - Three
- test    This test belongs to the Two value of complexe
  titi    This titi belongs to the Tata struct and is an unsigned integer
  tutu    tutu is the second argument
    - One
    - Two     Second argument
    - Three
- Three
"#
        .to_string()
    );
}

#[test]
fn shallow_choices_collapse_to_their_name_in_the_summary() {
    let arg = Arg::with_type("pick", None, Number::arguments());
    assert_eq!(arg.summarize(), "pick");
    assert_eq!(
        arg.details(),
        "pick\n  - One\n  - Two     Second argument\n  - Three\n"
    );
}

#[test]
fn deep_choices_expand_in_the_summary() {
    let arg = Arg::with_type("complexe", None, Complexe::arguments());
    assert_eq!(arg.summarize(), "<<titi> <tutu>|<test> <<titi> <tutu>>|Three>");
}

#[test]
fn groups_never_collapse_in_the_summary() {
    let shallow = Arg::with_type("pair", None, Tata::arguments());
    assert_eq!(shallow.summarize(), "<titi> <tutu>");
    let deep = Arg::with_type(
        "nest",
        None,
        ArgType::Group(ArgGroup(vec![Arg::with_type("complexe", None, Complexe::arguments())])),
    );
    assert_eq!(deep.summarize(), "<<<titi> <tutu>|<test> <<titi> <tutu>>|Three>>");
}

#[test]
fn an_empty_choices_list_still_renders() {
    assert_eq!(Choices(Vec::new()).summarize(), "<>");
    assert_eq!(Choices(Vec::new()).details(), "");
    assert_eq!(ArgGroup(Vec::new()).summarize(), "");
}
