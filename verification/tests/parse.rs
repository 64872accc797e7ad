use clipv::parser::{parse, parse_variant, Parsed, ParsingError, TryParse};
use vstd::prelude::DeepView;

fn tokens(list: &[&str]) -> Vec<String> {
    list.iter().map(|s| s.to_string()).collect()
}

#[derive(Debug, PartialEq)]
enum Number {
    One,
    Two,
    Three,
}

impl DeepView for Number {
    type V = ();

    fn deep_view(&self) -> Self::V {}
}

impl TryParse for Number {
    fn try_parse(values: &Vec<String>, pos: usize) -> Result<Parsed<Number>, ParsingError> {
        let Parsed(index, pos) = parse_variant(values, pos, &vec!["One", "Two", "Three"])?;
        match index {
            0 => Ok(Parsed(Number::One, pos)),
            1 => Ok(Parsed(Number::Two, pos)),
            _ => Ok(Parsed(Number::Three, pos)),
        }
    }
}

#[derive(Debug, PartialEq)]
enum Color {
    Red,
    Blue,
    Black,
    Yellow,
}

impl DeepView for Color {
    type V = ();

    fn deep_view(&self) -> Self::V {}
}

impl TryParse for Color {
    fn try_parse(values: &Vec<String>, pos: usize) -> Result<Parsed<Color>, ParsingError> {
        let Parsed(index, pos) = parse_variant(values, pos, &vec!["Red", "Blue", "Black", "Yellow"])?;
        match index {
            0 => Ok(Parsed(Color::Red, pos)),
            1 => Ok(Parsed(Color::Blue, pos)),
            2 => Ok(Parsed(Color::Black, pos)),
            _ => Ok(Parsed(Color::Yellow, pos)),
        }
    }
}

#[derive(Debug, PartialEq)]
struct Example {
    number: Number,
    color: Color,
}

impl DeepView for Example {
    type V = ();

    fn deep_view(&self) -> Self::V {}
}

impl TryParse for Example {
    fn try_parse(values: &Vec<String>, pos: usize) -> Result<Parsed<Example>, ParsingError> {
        let Parsed(number, pos) = Number::try_parse(values, pos)?;
        let Parsed(color, pos) = Color::try_parse(values, pos)?;
        Ok(Parsed(Example { number, color }, pos))
    }
}

#[test]
fn it_should_parse_and_call_the_callback() {
    let arguments = tokens(&["One", "Black"]);
    let result = parse::<Example, _, _>(&arguments, |r| {
        r == Example { number: Number::One, color: Color::Black }
    });
    assert!(result.is_ok());
    assert!(result.ok().unwrap());
}

#[test]
fn parse_rejects_leftover_tokens() {
    let arguments = tokens(&["One", "Black", "extra"]);
    let result = parse::<Example, _, _>(&arguments, |r| r);
    assert_eq!(result.err(), Some(ParsingError::TooManyArguments));
}

#[test]
fn parse_passes_the_inner_error_through() {
    let arguments = tokens(&["Mauve", "Black"]);
    let result = parse::<Example, _, _>(&arguments, |r| r);
    assert_eq!(result.err(), Some(ParsingError::VariantNotFound));

    let empty: Vec<String> = Vec::new();
    let result = parse::<Example, _, _>(&empty, |r| r);
    assert_eq!(result.err(), Some(ParsingError::TooFewArguments));
}
