use awpak_rs::parser::from_value::from_value_for_string;
use awpak_rs::parser::json_parser::json_parser;
use awpak_rs::parser::text_parser::{text_parser, text_serializer};
use awpak_rs::parser::value::JsonValue;

#[test]
fn test_text_serializer_text_input() {
    let value = JsonValue::Str("text".to_string());

    let text = text_serializer(&value);

    assert!(text.is_ok(), "text is Err");

    let text = text.unwrap();

    let text = core::str::from_utf8(&text);

    assert!(text.is_ok(), "text 2 is Err");

    let text = text.unwrap();

    assert_eq!(text, "text");
}

#[test]
fn test_text_serializer_json_input() {
    let value = serde_json::from_str::<serde_json::Value>(r#"{"x":3,"y":5}"#);

    assert!(value.is_ok(), "value is Err");

    let value = value.unwrap();

    let point_x = value.get("x").and_then(|v| v.as_f64());
    let point_y = value.get("y").and_then(|v| v.as_f64());

    assert!(point_x.is_some(), "point is Err");
    assert!(point_y.is_some(), "point is Err");

    assert_eq!(point_x.unwrap(), 3.0);
    assert_eq!(point_y.unwrap(), 5.0);

    let decoded = json_parser(&r#"{"x":3,"y":5}"#.as_bytes().to_vec()).unwrap();

    let text = text_serializer(&decoded);

    assert!(text.is_ok(), "text is Err");

    let text = text.unwrap();

    let text = core::str::from_utf8(&text);

    assert!(text.is_ok(), "text 2 is Err");

    let text = text.unwrap();

    assert_eq!(text, r#"{"x":3,"y":5}"#);
}

#[test]
fn test_text_parser_json_input() {
    let text_value = text_parser(&r#"{"x":3,"y":5}"#.as_bytes().to_vec());

    assert!(text_value.is_ok(), "text_value Err");

    let text = match text_value.as_ref().unwrap() {
        JsonValue::Str(s) => Some(s.as_str()),
        _ => None,
    };

    assert!(text.is_some(), "text_value.as_str() is none");

    assert_eq!(text.unwrap(), r#"{"x":3,"y":5}"#);
}

#[test]
fn test_text_parser_text_input() {
    let text_value = text_parser(&"hello".as_bytes().to_vec());

    assert!(text_value.is_ok(), "text_value Err");

    let text = match text_value.as_ref().unwrap() {
        JsonValue::Str(s) => Some(s.as_str()),
        _ => None,
    };

    assert!(text.is_some(), "text_value.as_str() is none");

    assert_eq!(text.unwrap(), "hello");
}

#[test]
fn test_text_parser_invalid_utf8() {
    let bytes: Vec<u8> = vec![0xff, 0xfe, 0x80];
    let r = text_parser(&bytes);
    assert!(r.is_err());
}

#[test]
fn test_from_value_for_string() {
    let value = json_parser(&r#"{"x":33,"y":22}"#.as_bytes().to_vec()).unwrap();

    assert_eq!(from_value_for_string(&value).unwrap(), r#"{"x":33,"y":22}"#);

    let value = JsonValue::Str("hello".to_string());

    assert_eq!(from_value_for_string(&value).unwrap(), "hello");
}
