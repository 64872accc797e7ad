use clipv::describe::arg::{Arg, ArgGroup, ArgType, Choices};
use clipv::describe::command::{AsCommand, Command};
use clipv::describe::value::Value;

enum Number {}

impl AsCommand for Number {
    fn command() -> Command {
        Command {
            value: Value { name: "cli", description: None },
            subcommands: Some(vec![
                Command::new("One", None),
                Command::new("Two", Some("Second command")),
                Command::new("Three", None),
            ]),
            arguments: ArgGroup(Vec::new()),
        }
    }
}

#[test]
fn it_should_format_one_layer_commands() {
    assert_eq!(Number::command().summarize(), "cli [COMMAND] ..".to_string());

    assert_eq!(
        Number::command().details(),
        format!("Commands:\n  One\n  Two{ws:5}Second command\n  Three\n", ws = ' ')
    );
}

#[test]
fn it_should_display_description() {
    assert_eq!(
        Number::help(),
        r#"Usage: cli [COMMAND] ..

Commands:
  One
  Two     Second command
  Three
"#
    );
}

struct Complexe {}

impl AsCommand for Complexe {
    fn command() -> Command {
        Command {
            value: Value { name: "complexe", description: Some("Complexified cli test") },
            subcommands: Some(vec![
                Command::new("One", None),
                Command::new("Two", Some("Second command")),
                Command::new("Three", None),
            ]),
            arguments: ArgGroup(vec![
                Arg::new("arg1", None),
                Arg::new("arg2", Some("Second argument")),
            ]),
        }
    }
}

#[test]
fn arg_and_command_summary() {
    assert_eq!(Complexe::command().summarize(), "complexe <arg1> <arg2> [COMMAND] ..".to_string());
}

#[test]
fn arg_and_command_details() {
    assert_eq!(
        Complexe::command().details(),
        r#"Arguments:
  arg1
  arg2    Second argument

Commands:
  One
  Two     Second command
  Three
"#
    );
}

#[test]
fn arg_and_command_help() {
    assert_eq!(
        Complexe::help(),
        r#"Complexified cli test

Usage: complexe <arg1> <arg2> [COMMAND] ..

Arguments:
  arg1
  arg2    Second argument

Commands:
  One
  Two     Second command
  Three
"#
    );
}

struct SimpleEnum {}

impl AsCommand for SimpleEnum {
    fn command() -> Command {
        let mut cmd = Command::new("SimpleEnum", Some("description"));
        cmd.set_arguments(vec![Arg::with_type(
            "SimpleEnum",
            None,
            ArgType::Choices(Choices(vec![
                Arg::new("Variant1", None),
                Arg::new("Variant2", Some("provides some documentation")),
            ])),
        )]);
        cmd
    }
}

#[test]
fn it_should_display_the_usage() {
    assert_eq!(
        SimpleEnum::help(),
        r#"description

Usage: SimpleEnum <SimpleEnum>

Arguments:
  SimpleEnum
    - Variant1
    - Variant2provides some documentation
"#
    );
}

struct NestedEnum {}

impl AsCommand for NestedEnum {
    fn command() -> Command {
        let mut cmd = Command::new("NestedEnum", None);
        cmd.set_arguments(vec![Arg::with_type(
            "NestedEnum",
            None,
            ArgType::Choices(Choices(vec![
                Arg::with_type(
                    "Tuple",
                    None,
                    ArgType::Group(ArgGroup(vec![
                        Arg::new("u8", None),
                        Arg::new("String", None),
                    ])),
                ),
                Arg::with_type(
                    "Struct",
                    None,
                    ArgType::Group(ArgGroup(vec![Arg::new("a", None), Arg::new("b", None)])),
                ),
                Arg::with_type(
                    "SubArg",
                    None,
                    ArgType::Group(ArgGroup(vec![Arg::new("EmptyArg", None)])),
                ),
                Arg::new("Unit", None),
            ])),
        )]);
        cmd
    }
}

#[test]
fn it_should_support_nested_arguments() {
    assert_eq!(
        NestedEnum::help(),
        r#"Usage: NestedEnum <NestedEnum>

Arguments:
  NestedEnum
    - u8
      String
    - a
      b
    - EmptyArg
    - Unit
"#
    );
}

#[test]
fn a_bare_command_renders_nothing_but_its_name() {
    let cmd = Command::new("lonely", None);
    assert_eq!(cmd.summarize(), "lonely");
    assert_eq!(cmd.details(), "");
    assert_eq!(cmd.help(), "Usage: lonely\n\n");
}
