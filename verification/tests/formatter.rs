use clipv::describe::formatter::{start_other_lines_with, start_with, Formatter};
use clipv::formatter::Formatter as FlatFormatter;

#[test]
fn formatter_default_formatter() {
    assert_eq!(
        Formatter::default().fmt(&vec![1, 2, 3], |item: &i32| Some(item.to_string())),
        String::from("123")
    );
    assert_eq!(
        FlatFormatter::default().fmt(&vec![1, 2, 3], |item: &i32| Some(item.to_string())),
        String::from("123")
    );
}

#[test]
fn formatter_it_should_fmt_with_start_and_end() {
    assert_eq!(
        Formatter { start: Some("<"), end: Some(">"), ..Default::default() }
            .fmt(&vec![1, 2, 3], |item: &i32| Some(item.to_string())),
        "<1><2><3>"
    );
    assert_eq!(
        FlatFormatter { start: Some("<"), end: Some(">"), ..Default::default() }
            .fmt(&vec![1, 2, 3], |item: &i32| Some(item.to_string())),
        "<1><2><3>"
    );
}

#[test]
fn formatter_it_should_fmt_with_middle_char() {
    assert_eq!(
        Formatter { middle: Some(" "), ..Default::default() }
            .fmt(&vec![1, 2, 3], |item: &i32| Some(item.to_string())),
        "1 2 3"
    );
    assert_eq!(
        FlatFormatter { middle: Some(" "), ..Default::default() }
            .fmt(&vec![1, 2, 3], |item: &i32| Some(item.to_string())),
        "1 2 3"
    );
}

#[test]
fn formatter_it_should_fmt_with_start_end_middle_char() {
    assert_eq!(
        Formatter {
            start: Some("<"),
            end: Some(">"),
            middle: Some(" "),
            very_start: Some("Result: "),
            very_end: Some("."),
            new_line_chars: None,
        }
        .fmt(&vec![1, 2, 3], |item: &i32| Some(item.to_string())),
        "Result: <1> <2> <3>."
    );
    assert_eq!(
        FlatFormatter {
            start: Some("<"),
            end: Some(">"),
            middle: Some(" "),
            very_start: Some("Result: "),
            very_end: Some("."),
        }
        .fmt(&vec![1, 2, 3], |item: &i32| Some(item.to_string())),
        "Result: <1> <2> <3>."
    );
}

#[test]
fn it_should_fmt_and_filter_none_values() {
    assert_eq!(
        Formatter { start: Some("<"), end: Some(">"), middle: Some(","), ..Default::default() }
            .fmt(&vec![1, 2, 3, 4, 5, 4, 3, 5], |item: &i32| {
                if item % 2 == 0 {
                    Some(item.to_string())
                } else {
                    None
                }
            }),
        "<2>,<4>,<4>"
    );
    assert_eq!(
        Formatter { start: Some("<"), end: Some(">"), middle: Some(","), ..Default::default() }
            .fmt(&vec![1, 2, 3, 4, 5, 4, 3, 5], |item: &i32| {
                if item % 2 != 0 {
                    Some(item.to_string())
                } else {
                    None
                }
            }),
        "<1>,<3>,<5>,<3>,<5>"
    );
}

#[allow(non_snake_case)]
#[test]
fn it_should_fmt_and_filter_None_values() {
    assert_eq!(
        FlatFormatter { start: Some("<"), end: Some(">"), middle: Some(","), ..Default::default() }
            .fmt(&vec![1, 2, 3, 4, 5, 4, 3, 5], |item: &i32| {
                if item % 2 == 0 {
                    Some(item.to_string())
                } else {
                    None
                }
            }),
        "<2>,<4>,<4>"
    );
    assert_eq!(
        FlatFormatter { start: Some("<"), end: Some(">"), middle: Some(","), ..Default::default() }
            .fmt(&vec![1, 2, 3, 4, 5, 4, 3, 5], |item: &i32| {
                if item % 2 != 0 {
                    Some(item.to_string())
                } else {
                    None
                }
            }),
        "<1>,<3>,<5>,<3>,<5>"
    );
}

#[test]
fn fmt_of_no_items_is_exactly_the_outer_wrapper() {
    let items: Vec<i32> = Vec::new();
    assert_eq!(
        Formatter { very_start: Some("Result: "), very_end: Some("."), ..Default::default() }
            .fmt(&items, |item: &i32| Some(item.to_string())),
        "Result: ."
    );
    assert_eq!(
        FlatFormatter { very_start: Some("["), very_end: Some("]"), ..Default::default() }
            .fmt(&items, |item: &i32| Some(item.to_string())),
        "[]"
    );
}

#[test]
fn fmt_with_all_items_filtered_keeps_only_the_wrapper() {
    assert_eq!(
        Formatter { very_start: Some("<"), very_end: Some(">"), middle: Some("|"), ..Default::default() }
            .fmt(&vec![1, 3, 5], |_item: &i32| None),
        "<>"
    );
}

#[test]
fn fmt_indents_continuation_lines_of_an_item() {
    assert_eq!(
        Formatter { start: Some("- "), new_line_chars: Some("  "), ..Default::default() }
            .fmt(&vec!["a\nb", "c"], |item: &&str| Some(item.to_string())),
        "- a\n  b\n- c\n"
    );
}

#[test]
fn start_with_prefixes_every_line() {
    assert_eq!(start_with(String::from("a\nb"), "  "), "  a\n  b\n");
    assert_eq!(start_with(String::from("a\nb\n"), "> "), "> a\n> b\n");
    assert_eq!(start_with(String::new(), "  "), "");
}

#[test]
fn start_other_lines_with_spares_the_first_line() {
    assert_eq!(start_other_lines_with(String::from("a\nb\nc"), "  "), "a\n  b\n  c\n");
    assert_eq!(start_other_lines_with(String::from("a"), "  "), "a\n");
    assert_eq!(start_other_lines_with(String::new(), "  "), "");
}
