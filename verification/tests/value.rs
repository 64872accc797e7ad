use clipv::describe::value::Value;

#[test]
fn display_nominale() {
    assert_eq!(Value { name: "name", description: Some("description") }.display(), "name");
    assert_eq!(Value { name: "name", description: None }.display(), "name");
}

#[test]
fn display_alternate() {
    assert_eq!(
        Value { name: "name", description: Some("description") }.display_alternate(),
        "name    description"
    );
    assert_eq!(Value { name: "name", description: None }.display_alternate(), "name");
}

#[test]
fn display_alternate_keeps_a_long_name_unpadded() {
    assert_eq!(
        Value { name: "Variant2", description: Some("provides some documentation") }
            .display_alternate(),
        "Variant2provides some documentation"
    );
}
