use clipv::parser::from_str_variant;

#[derive(Debug, PartialEq)]
enum Unit {
    One,
    Two,
    Three,
}

impl std::str::FromStr for Unit {
    type Err = String;

    fn from_str(value: &str) -> Result<Self, Self::Err> {
        match from_str_variant(&vec!["One", "Two", "Three"], value)? {
            0 => Ok(Unit::One),
            1 => Ok(Unit::Two),
            _ => Ok(Unit::Three),
        }
    }
}

#[test]
fn it_should_parse_the_enumeration_unit_value() {
    assert_eq!("One".parse::<Unit>(), Ok(Unit::One));
    assert_eq!("two".parse::<Unit>(), Ok(Unit::Two));
    assert_eq!("THREE".parse::<Unit>(), Ok(Unit::Three));
}

#[test]
fn it_should_raise_variant_not_found() {
    assert_eq!("unexistant".parse::<Unit>(), Err(String::from("Unexistant variant unexistant")));
    assert_eq!("".parse::<Unit>(), Err(String::from("Unexistant variant ")));
}
