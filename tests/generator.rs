use darklua_core::generator_utils::{
    break_concat, break_long_string, break_minus, break_variable_arguments, ends_with_prefix,
    is_relevant_for_spacing, starts_with_parenthese, write_string,
};
use darklua_core::nodes::{Expression, FunctionCall, Statement};

fn check(input: &str, expected: &str) {
    assert_eq!(expected, write_string(input));
}

#[test]
fn write_string_empty() {
    check("", "''");
}

#[test]
fn write_string_single_letter() {
    check("a", "'a'");
}

#[test]
fn write_string_single_digit() {
    check("8", "'8'");
}

#[test]
fn write_string_single_symbol() {
    check("!", "'!'");
}

#[test]
fn write_string_single_space() {
    check(" ", "' '");
}

#[test]
fn write_string_abc() {
    check("abc", "'abc'");
}

#[test]
fn write_string_three_spaces() {
    check("   ", "'   '");
}

#[test]
fn write_string_new_line() {
    check("\n", "'\\n'");
}

#[test]
fn write_string_bell() {
    check("\u{7}", "'\\a'");
}

#[test]
fn write_string_backspace() {
    check("\u{8}", "'\\b'");
}

#[test]
fn write_string_form_feed() {
    check("\u{c}", "'\\f'");
}

#[test]
fn write_string_tab() {
    check("\t", "'\\t'");
}

#[test]
fn write_string_carriage_return() {
    check("\u{D}", "'\\r'");
}

#[test]
fn write_string_vertical_tab() {
    check("\u{B}", "'\\v'");
}

#[test]
fn write_string_backslash() {
    check("\\", "'\\\\'");
}

#[test]
fn write_string_single_quote() {
    check("'", "\"'\"");
}

#[test]
fn write_string_double_quote() {
    check("\"", "'\"'");
}

#[test]
fn write_string_null() {
    check("\0", "'\\0'");
}

#[test]
fn write_string_escape() {
    check("\u{1B}", "'\\27'");
}

#[test]
fn write_string_unicode() {
    check("\u{10FFFF}", "'\\u{10ffff}'");
}

#[test]
fn write_string_im_cool() {
    check("I'm cool", "\"I'm cool\"");
}

#[test]
fn write_string_ends_with_closing_bracket() {
    check("oof]", "'oof]'");
}

#[test]
fn write_string_multiline_ends_with_closing_bracket() {
    check("oof\noof]", "'oof\\noof]'");
}

#[test]
fn write_string_large_multiline_does_not_end_with_closing_bracket() {
    check(
        "ooof\nooof\nooof\nooof\nooof\nooof\nooof\nooof\noof",
        "[[ooof\nooof\nooof\nooof\nooof\nooof\nooof\nooof\noof]]",
    );
}

#[test]
fn write_string_large_multiline_ends_with_closing_bracket() {
    check(
        "ooof\nooof\nooof\nooof\nooof\nooof\nooof\nooof\noof]",
        "[=[ooof\nooof\nooof\nooof\nooof\nooof\nooof\nooof\noof]]=]",
    );
}

#[test]
fn write_string_large_multiline_starts_with_new_line() {
    check(
        "\nooof\nooof\nooof\nooof\nooof\nooof\nooof\nooof\noof",
        "[[\n\nooof\nooof\nooof\nooof\nooof\nooof\nooof\nooof\noof]]",
    );
}

#[test]
fn write_string_large_multiline_with_unicode() {
    check(
        "\nooof\nooof\nooof\nooof\nooof\nooof\nooof\nooof\noof\u{10FFFF}",
        "'\\nooof\\nooof\\nooof\\nooof\\nooof\\nooof\\nooof\\nooof\\noof\\u{10ffff}'",
    );
}

#[test]
fn write_string_long_bracket_level_skips_closings_in_content() {
    let value = "aaaaaaaaaa]]bbbbbbbbbb]=]cccccccccccccccccccc\n";
    check(value, "[==[aaaaaaaaaa]]bbbbbbbbbb]=]cccccccccccccccccccc\n]==]");
}

#[test]
fn write_string_two_byte_character_is_quoted() {
    check("é", "'\\u{e9}'");
}

#[test]
fn spacing_characters() {
    assert!(is_relevant_for_spacing(&'a'));
    assert!(is_relevant_for_spacing(&'Z'));
    assert!(is_relevant_for_spacing(&'7'));
    assert!(is_relevant_for_spacing(&'_'));
    assert!(!is_relevant_for_spacing(&'('));
    assert!(!is_relevant_for_spacing(&' '));
}

#[test]
fn breaks_between_tokens() {
    assert!(break_long_string("a["));
    assert!(!break_long_string("a"));
    assert!(!break_long_string(""));
    assert!(break_minus("x-"));
    assert!(!break_minus("x"));
    assert!(break_variable_arguments("a."));
    assert!(break_variable_arguments(".a"));
    assert!(break_variable_arguments("1a"));
    assert!(!break_variable_arguments("ab"));
    assert!(!break_variable_arguments(""));
    assert!(break_concat("9"));
    assert!(!break_concat("x"));
}

fn call(prefix: Expression) -> FunctionCall {
    FunctionCall { prefix: Box::new(prefix), method: None, arguments: vec![] }
}

#[test]
fn statement_shapes() {
    let call_stmt = Statement::Call(call(Expression::Identifier("f".to_string())));
    assert!(ends_with_prefix(&call_stmt));
    assert!(!starts_with_parenthese(&call_stmt));

    let paren_call = Statement::Call(call(Expression::Parenthese(Box::new(Expression::Identifier(
        "f".to_string(),
    )))));
    assert!(starts_with_parenthese(&paren_call));

    let assign_number = Statement::Assign {
        variables: vec![Expression::Identifier("a".to_string())],
        values: vec![Expression::Number(1)],
    };
    assert!(!ends_with_prefix(&assign_number));
    assert!(!starts_with_parenthese(&assign_number));

    let assign_field_of_paren = Statement::Assign {
        variables: vec![Expression::Field {
            prefix: Box::new(Expression::Parenthese(Box::new(Expression::Identifier("t".to_string())))),
            field: "x".to_string(),
        }],
        values: vec![Expression::Identifier("b".to_string())],
    };
    assert!(starts_with_parenthese(&assign_field_of_paren));
    assert!(ends_with_prefix(&assign_field_of_paren));

    let local_empty = Statement::LocalAssign { variables: vec![], values: vec![] };
    assert!(!ends_with_prefix(&local_empty));
}

#[test]
fn write_string_decimal_escape_before_digit_is_padded() {
    check("\u{1}2", "'\\0012'");
    check("\u{1}x", "'\\1x'");
    check("a\0", "'a\\0'");
}
