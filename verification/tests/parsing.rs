use parson::parse;

#[test]
fn parse_empty_input_fails() {
    let result = parse("");
    assert!(result.is_err());
    assert_eq!(result.unwrap_err().get_message(), "No tokens found (line 1 column 1)");
}

#[test]
fn parse_whitespace_only_fails() {
    let result = parse("   ");
    assert!(result.is_err());
    assert_eq!(result.unwrap_err().get_message(), "No tokens found (line 1 column 1)");
}

#[test]
fn parse_object_with_array() {
    let value = parse("{\"a\": 1, \"b\": [true, false, null]}").unwrap();
    assert!(value.is_object());
    let object = value.get_object();
    let a = object.get("a").unwrap();
    assert!(a.is_number());
    assert_eq!(a.get_number().parse::<f64>().unwrap(), 1.0);
    let b = object.get("b").unwrap();
    assert!(b.is_array());
    let array = b.get_array();
    assert_eq!(array.len(), 3);
    assert!(array.get(0).unwrap().is_boolean());
    assert!(array.get(0).unwrap().get_boolean());
    assert!(array.get(1).unwrap().is_boolean());
    assert!(!array.get(1).unwrap().get_boolean());
    assert!(array.get(2).unwrap().is_null());
}

#[test]
fn parse_duplicate_key_last_write_wins() {
    let value = parse("{\"a\":1,\"a\":2}").unwrap();
    let object = value.get_object();
    assert_eq!(object.len(), 1);
    let a = object.get("a").unwrap();
    assert_eq!(a.get_number().parse::<f64>().unwrap(), 2.0);
}

#[test]
fn parse_trailing_comma_fails() {
    assert!(parse("[1, 2,]").is_err());
}

#[test]
fn parse_unterminated_string_fails() {
    let result = parse("\"unterminated");
    assert!(result.is_err());
    let message = result.unwrap_err().get_message();
    assert!(message.starts_with("Unexpected end of string"));
}

#[test]
fn parse_nested_empty_arrays() {
    let value = parse("[[[]]]").unwrap();
    assert!(value.is_array());
    let outer = value.get_array();
    assert_eq!(outer.len(), 1);
    let middle = outer.get(0).unwrap().get_array();
    assert_eq!(middle.len(), 1);
    let inner = middle.get(0).unwrap().get_array();
    assert_eq!(inner.len(), 0);
}

#[test]
fn parse_error_location_in_multiline_input() {
    let result = parse("{\n  \"a\": x}");
    assert!(result.is_err());
    assert_eq!(
        result.unwrap_err().get_message(),
        "Unexpected character <x> (line 2 column 8)"
    );
}

#[test]
fn parse_unterminated_string_location_in_multiline_input() {
    let result = parse("[\n1,\n\"abc");
    assert!(result.is_err());
    assert_eq!(
        result.unwrap_err().get_message(),
        "Unexpected end of string (line 3 column 5)"
    );
}

#[test]
fn parse_scalar_number() {
    let value = parse("5").unwrap();
    assert!(value.is_number());
    assert_eq!(value.get_number(), "5");
    assert_eq!(value.get_number().parse::<f64>().unwrap(), 5.0);
}

#[test]
fn parse_negative_number_with_exponent() {
    let value = parse("[-2.5e-3]").unwrap();
    let array = value.get_array();
    let n = array.get(0).unwrap().get_number();
    assert_eq!(n, "-2.5e-3");
    assert_eq!(n.parse::<f64>().unwrap(), -2.5e-3);
}

#[test]
fn parse_number_with_two_dots_fails() {
    let result = parse("1.2.3");
    assert!(result.is_err());
    assert_eq!(
        result.unwrap_err().get_message(),
        "Invalid number <1.2.3> (line 1 column 1)"
    );
}

#[test]
fn parse_lone_minus_fails() {
    let result = parse("-");
    assert!(result.is_err());
    assert_eq!(result.unwrap_err().get_message(), "Invalid number <-> (line 1 column 1)");
}

#[test]
fn parse_exponent_without_digits_fails() {
    let result = parse("1e");
    assert!(result.is_err());
    assert_eq!(result.unwrap_err().get_message(), "Invalid number <1e> (line 1 column 1)");
}

#[test]
fn parse_exponent_plus_sign_rejected() {
    assert!(parse("1e+5").is_err());
}

#[test]
fn parse_misplaced_dot_fails() {
    let result = parse("[.5]");
    assert!(result.is_err());
    assert_eq!(
        result.unwrap_err().get_message(),
        "Invalid character in number <.> (line 1 column 2)"
    );
}

#[test]
fn parse_keywords_at_end_of_input() {
    assert!(parse("true").unwrap().get_boolean());
    assert!(!parse("false").unwrap().get_boolean());
    assert!(parse("null").unwrap().is_null());
}

#[test]
fn parse_string_keeps_escapes_verbatim() {
    let value = parse("\"a\\nb\"").unwrap();
    assert_eq!(value.get_string(), "a\\nb");
}

#[test]
fn parse_invalid_escape_fails() {
    let result = parse("\"a\\qb\"");
    assert!(result.is_err());
    assert_eq!(
        result.unwrap_err().get_message(),
        "Invalid escape of character <q> (line 1 column 4)"
    );
}

#[test]
fn parse_trailing_tokens_after_container_fail() {
    let result = parse("[1] 2");
    assert!(result.is_err());
    assert_eq!(
        result.unwrap_err().get_message(),
        "Expected end of file, got <2> (line 1 column 5)"
    );
}

#[test]
fn parse_trailing_tokens_after_scalar_fail() {
    let result = parse("\"a\" 1");
    assert!(result.is_err());
    assert_eq!(
        result.unwrap_err().get_message(),
        "Expected end of file, got <a> (line 1 column 1)"
    );
}

#[test]
fn parse_structural_token_at_start_fails() {
    let result = parse("}");
    assert!(result.is_err());
    let message = result.unwrap_err().get_message();
    assert!(message.starts_with("Unexpected start of file"));
}

#[test]
fn parse_missing_colon_fails() {
    let result = parse("{\"a\" 1}");
    assert!(result.is_err());
    let message = result.unwrap_err().get_message();
    assert!(message.starts_with("Expected colon after key in object, got <1>"));
}

#[test]
fn parse_non_string_key_fails() {
    let result = parse("{1: 2}");
    assert!(result.is_err());
    let message = result.unwrap_err().get_message();
    assert!(message.starts_with("Expected string key in object, got <1>"));
}

#[test]
fn parse_unexpected_character_fails() {
    let result = parse("@");
    assert!(result.is_err());
    assert_eq!(
        result.unwrap_err().get_message(),
        "Unexpected character <@> (line 1 column 1)"
    );
}

#[test]
fn parse_unclosed_array_fails() {
    let result = parse("[1,");
    assert!(result.is_err());
    assert_eq!(
        result.unwrap_err().get_message(),
        "Unexpected end of file before finding open square bracket (line 1 column 3)"
    );
}

#[test]
fn parse_colon_in_array_errs_at_the_colon() {
    let result = parse("[:]");
    assert!(result.is_err());
    assert_eq!(
        result.unwrap_err().get_message(),
        "Unexpected end of file (line 1 column 2)"
    );
}

#[test]
fn parse_value_missing_after_key_errs_at_offending_token() {
    let result = parse("{\"a\":}");
    assert!(result.is_err());
    assert_eq!(
        result.unwrap_err().get_message(),
        "Unexpected end of file (line 1 column 6)"
    );
}

#[test]
fn string_bodies_advance_the_line_counter() {
    let result = parse("\"a\n\\qb\"");
    assert!(result.is_err());
    assert_eq!(
        result.unwrap_err().get_message(),
        "Invalid escape of character <q> (line 2 column 2)"
    );
    let result = parse("\"a\nb\" x");
    assert!(result.is_err());
    assert_eq!(
        result.unwrap_err().get_message(),
        "Unexpected character <x> (line 2 column 4)"
    );
}

#[test]
fn parse_mismatched_close_bracket_names_the_character() {
    assert_eq!(
        parse("}").unwrap_err().get_message(),
        "Unexpected start of file <}> (line 1 column 1)"
    );
    assert_eq!(
        parse("]").unwrap_err().get_message(),
        "Unexpected start of file <]> (line 1 column 1)"
    );
}

#[test]
fn parse_empty_containers() {
    assert_eq!(parse("{}").unwrap().get_object().len(), 0);
    assert_eq!(parse("[]").unwrap().get_array().len(), 0);
}
