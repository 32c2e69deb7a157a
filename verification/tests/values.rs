use parson::{
    parse, JSONArray, JSONBoolean, JSONError, JSONNull, JSONNumber, JSONObject, JSONString,
    JSONType, JSONValue, Lexer, Parser, Token, TokenType,
};

#[test]
fn empty_array_renders_with_two_spaces() {
    assert_eq!(JSONArray::new().to_string(), "[  ]");
}

#[test]
fn empty_object_renders_with_two_spaces() {
    assert_eq!(JSONObject::new().to_string(), "{  }");
}

#[test]
fn array_rendering_separates_elements() {
    let mut array = JSONArray::new();
    array.push(JSONValue::from_object(JSONObject::new()));
    assert_eq!(array.to_string(), "[ {  } ]");
    array.push(JSONValue::from_array(JSONArray::new()));
    assert_eq!(array.to_string(), "[ {  }, [  ] ]");
}

#[test]
fn object_rendering_quotes_keys() {
    let mut object = JSONObject::new();
    object.set(
        "key".to_string(),
        JSONValue::from_string(JSONString::new("value".to_string())),
    );
    assert_eq!(object.to_string(), "{ \"key\": \"value\" }");
    object.set("number".to_string(), JSONValue::from_number(JSONNumber::new("1".to_string())));
    assert_eq!(object.to_string(), "{ \"key\": \"value\", \"number\": 1 }");
}

#[test]
fn set_existing_key_keeps_position() {
    let mut object = JSONObject::new();
    object.set("a".to_string(), JSONValue::from_number(JSONNumber::new("1".to_string())));
    object.set("b".to_string(), JSONValue::from_number(JSONNumber::new("2".to_string())));
    object.set("a".to_string(), JSONValue::from_number(JSONNumber::new("3".to_string())));
    assert_eq!(object.len(), 2);
    assert_eq!(object.to_string(), "{ \"a\": 3, \"b\": 2 }");
    assert_eq!(object.get("a").unwrap().get_number(), "3");
    assert_eq!(object.get("b").unwrap().get_number(), "2");
    assert!(object.get("c").is_none());
}

#[test]
fn round_trip_of_built_tree() {
    let mut inner = JSONArray::new();
    inner.push(JSONValue::from_number(JSONNumber::new("1.5".to_string())));
    inner.push(JSONValue::from_boolean(JSONBoolean::new(true)));
    inner.push(JSONValue::from_null(JSONNull::new()));
    let mut object = JSONObject::new();
    object.set("list".to_string(), JSONValue::from_array(inner));
    object.set(
        "name".to_string(),
        JSONValue::from_string(JSONString::new("x\\ty".to_string())),
    );
    let value = JSONValue::from_object(object);
    let text = value.to_string();
    let reparsed = parse(&text).unwrap();
    assert_eq!(reparsed.to_string(), text);
    let object = reparsed.get_object();
    assert_eq!(object.len(), 2);
    let list = object.get("list").unwrap().get_array();
    assert_eq!(list.len(), 3);
    assert_eq!(list.get(0).unwrap().get_number(), "1.5");
    assert!(list.get(1).unwrap().get_boolean());
    assert!(list.get(2).unwrap().is_null());
    assert_eq!(object.get("name").unwrap().get_string(), "x\\ty");
}

#[test]
fn round_trip_of_parsed_text() {
    let text = "{ \"a\": 1, \"b\": [ true, \"two\", {  } ] }";
    let value = parse(text).unwrap();
    assert_eq!(value.to_string(), text);
    let again = parse(&value.to_string()).unwrap();
    assert_eq!(again.to_string(), text);
}

#[test]
fn scalar_renderings() {
    assert_eq!(JSONNull::new().to_string(), "null");
    assert_eq!(JSONBoolean::new(true).to_string(), "true");
    assert_eq!(JSONBoolean::new(false).to_string(), "false");
    assert_eq!(JSONString::new("value".to_string()).to_string(), "\"value\"");
    assert_eq!(JSONNumber::new("-0.25".to_string()).to_string(), "-0.25");
}

#[test]
fn scalar_accessors() {
    assert!(JSONBoolean::new(true).get_boolean());
    assert_eq!(JSONString::new("abc".to_string()).get_string(), "abc");
    let n = JSONNumber::new("1e3".to_string());
    assert_eq!(n.get_number().parse::<f64>().unwrap(), 1000.0);
}

#[test]
fn value_type_predicates() {
    let value = JSONValue::from_string(JSONString::new(String::new()));
    assert!(value.is_string());
    assert!(!value.is_number());
    assert!(!value.is_boolean());
    assert!(!value.is_null());
    assert!(!value.is_array());
    assert!(!value.is_object());
    assert!(matches!(value.get_type(), JSONType::String(_)));
    let value = JSONValue::from_null(JSONNull::new());
    assert!(value.is_null());
    assert!(matches!(value.get_type(), JSONType::Null(_)));
}

#[test]
fn array_to_vec_copies_elements() {
    let mut array = JSONArray::new();
    array.push(JSONValue::from_boolean(JSONBoolean::new(true)));
    array.push(JSONValue::from_number(JSONNumber::new("7".to_string())));
    let items = array.to_vec();
    assert_eq!(items.len(), 2);
    assert!(items[0].get_boolean());
    assert_eq!(items[1].get_number(), "7");
}

#[test]
fn to_hashmap_copies_entries() {
    let value = parse("{\"a\":1,\"b\":true}").unwrap();
    let map = value.get_object().to_hashmap();
    assert_eq!(map.len(), 2);
    assert_eq!(map.get("a").unwrap().get_number(), "1");
    assert!(map.get("b").unwrap().get_boolean());
    assert!(map.get("c").is_none());
}

#[test]
fn error_message_includes_location() {
    let error = JSONError::new("msg", 3, 7);
    assert_eq!(error.get_message(), "msg (line 3 column 7)");
    let error = JSONError::new("big", 120, 4096);
    assert_eq!(error.get_message(), "big (line 120 column 4096)");
}

#[test]
fn indented_rendering() {
    let value = parse("{\"a\": [1, true]}").unwrap();
    assert_eq!(
        value.format_string(0, 2),
        "{\n  \"a\": [\n    1,\n    true,\n  ],\n}"
    );
}

#[test]
fn indented_rendering_of_empty_containers() {
    assert_eq!(JSONObject::new().format_string(0, 4), "{}");
    assert_eq!(JSONArray::new().format_string(0, 4), "[]");
    let value = parse("[{}, []]").unwrap();
    assert_eq!(value.format_string(0, 2), "[\n  {},\n  [],\n]");
}

#[test]
fn lexer_produces_located_tokens() {
    let lexer = Lexer::new("[1,\n \"a\"]".to_string());
    let tokens = lexer.get_tokens().unwrap();
    assert_eq!(tokens.len(), 5);
    assert!(matches!(tokens[0].token_type, TokenType::OpenSquareBracket));
    assert_eq!((tokens[0].line, tokens[0].column), (1, 1));
    match &tokens[1].token_type {
        TokenType::Number(literal) => assert_eq!(literal, "1"),
        _ => panic!("expected a number token"),
    }
    assert_eq!((tokens[1].line, tokens[1].column), (1, 2));
    assert!(matches!(tokens[2].token_type, TokenType::Comma));
    match &tokens[3].token_type {
        TokenType::String(text) => assert_eq!(text, "a"),
        _ => panic!("expected a string token"),
    }
    assert_eq!(tokens[3].line, 2);
    assert!(matches!(tokens[4].token_type, TokenType::CloseSquareBracket));
}

#[test]
fn parser_over_explicit_tokens() {
    let lexer = Lexer::new("[ false ]".to_string());
    let parser = Parser::new(lexer.get_tokens().unwrap());
    let value = parser.parse().unwrap();
    let array = value.get_array();
    assert_eq!(array.len(), 1);
    assert!(!array.get(0).unwrap().get_boolean());
}

#[test]
fn token_display_strings() {
    assert_eq!(TokenType::String("x".to_string()).display_string(), "\"x\"");
    assert_eq!(TokenType::Number("2.5".to_string()).display_string(), "2.5");
    assert_eq!(TokenType::Boolean(true).display_string(), "true");
    assert_eq!(TokenType::Null.display_string(), "null");
    assert_eq!(TokenType::Colon.display_string(), ":");
}

#[test]
fn token_equality_ignores_location() {
    let a = Token::new(TokenType::Number("1".to_string()), 1, 1);
    let b = Token::new(TokenType::Number("1".to_string()), 9, 42);
    assert!(a == b);
    let c = Token::new(TokenType::Number("2".to_string()), 1, 1);
    assert!(a != c);
    let d = Token::new(TokenType::Comma, 1, 1);
    assert!(a != d);
}

#[test]
fn get_null_returns_the_null_value() {
    let value = parse("null").unwrap();
    assert_eq!(value.get_null().to_string(), "null");
}

#[test]
fn carriage_return_does_not_advance_column() {
    let result = parse("\r@");
    assert!(result.is_err());
    assert_eq!(
        result.unwrap_err().get_message(),
        "Unexpected character <@> (line 1 column 1)"
    );
}
