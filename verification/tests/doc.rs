use clipv::parser::{parse_variant, Parsed, ParsingError, TryParse};
use vstd::prelude::DeepView;

fn tokens(list: &[&str]) -> Vec<String> {
    list.iter().map(|s| s.to_string()).collect()
}

#[derive(Debug, PartialEq)]
enum Tata {
    One,
    Two,
    Three,
}

impl DeepView for Tata {
    type V = ();

    fn deep_view(&self) -> Self::V {}
}

impl TryParse for Tata {
    fn try_parse(values: &Vec<String>, pos: usize) -> Result<Parsed<Tata>, ParsingError> {
        let Parsed(index, pos) = parse_variant(values, pos, &vec!["One", "Two", "Three"])?;
        match index {
            0 => Ok(Parsed(Tata::One, pos)),
            1 => Ok(Parsed(Tata::Two, pos)),
            _ => Ok(Parsed(Tata::Three, pos)),
        }
    }
}

#[derive(Debug, PartialEq)]
struct Toto {
    tata: Tata,
    titi: u8,
}

impl DeepView for Toto {
    type V = ();

    fn deep_view(&self) -> Self::V {}
}

impl TryParse for Toto {
    fn try_parse(values: &Vec<String>, pos: usize) -> Result<Parsed<Toto>, ParsingError> {
        let Parsed(tata, pos) = Tata::try_parse(values, pos)?;
        let Parsed(titi, pos) = u8::try_parse(values, pos)?;
        Ok(Parsed(Toto { tata, titi }, pos))
    }
}

#[test]
fn doc_example_try_parse() {
    let arguments = tokens(&["one", "32"]);
    let result = Toto::try_parse(&arguments, 0);
    assert!(result.is_ok());
    let Parsed(parsed, _) = result.unwrap();
    assert_eq!(parsed.tata, Tata::One);
    assert_eq!(parsed.titi, 32);
}

#[test]
fn tokens_for_leaf_values_parse_back_to_them() {
    let arguments = tokens(&["255", "anything at all"]);
    let Parsed(byte, pos) = u8::try_parse(&arguments, 0).unwrap();
    assert_eq!(byte, 255);
    let Parsed(text, pos) = String::try_parse(&arguments, pos).unwrap();
    assert_eq!(text, "anything at all");
    assert_eq!(pos, 2);
}

#[test]
fn a_byte_token_is_strictly_checked() {
    let ok = |s: &str, v: u8| {
        assert_eq!(u8::try_parse(&tokens(&[s]), 0).unwrap().0, v);
    };
    let bad = |s: &str| {
        assert_eq!(u8::try_parse(&tokens(&[s]), 0).err(), Some(ParsingError::BadType));
    };
    ok("0", 0);
    ok("032", 32);
    ok("+47", 47);
    ok("255", 255);
    bad("256");
    bad("-1");
    bad("");
    bad("+");
    bad("12a");
    bad("999999999999999999999");
}
