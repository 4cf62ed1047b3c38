use awpak_rs::parser::json_parser::{json_parser, json_serializer};
use awpak_rs::parser::value::{render_value, JsonLeaf, JsonValue};

#[test]
fn test_json_round_trip_preserves_structure() {
    // Decoding a JSON body and re-encoding it with the same strategy
    // reproduces an equivalent structured value: same keys, same scalars.
    let source = r#"{"x":3,"y":2}"#;

    let decoded = json_parser(&source.as_bytes().to_vec()).unwrap();
    let encoded = json_serializer(&decoded).unwrap();
    let redecoded = json_parser(&encoded).unwrap();

    assert_eq!(decoded, redecoded);

    let v1: serde_json::Value = serde_json::from_str(source).unwrap();
    let v2: serde_json::Value = serde_json::from_slice(&encoded).unwrap();
    assert_eq!(v1, v2);
    assert_eq!(v2.get("x").unwrap().as_i64(), Some(3));
    assert_eq!(v2.get("y").unwrap().as_i64(), Some(2));
}

#[test]
fn test_json_parser_rejects_invalid_json() {
    let r = json_parser(&b"{not json".to_vec());
    assert!(r.is_err());
    match r {
        Err(awpak_rs::services::error::Error::ParserError(m)) => {
            assert_eq!(m, "Invalid json")
        },
        _ => panic!("expected a parser error"),
    }
}

#[test]
fn test_json_parser_shapes() {
    assert_eq!(json_parser(&b"null".to_vec()).unwrap(), JsonValue::Null);
    assert_eq!(
        json_parser(&b"\"hi\"".to_vec()).unwrap(),
        JsonValue::Str("hi".to_string())
    );
    assert_eq!(
        json_parser(&b"[1,2]".to_vec()).unwrap(),
        JsonValue::Raw("[1,2]".to_string())
    );
}

#[test]
fn test_json_serializer_string_goes_out_bare() {
    let bytes = json_serializer(&JsonValue::Str("hi".to_string())).unwrap();
    assert_eq!(bytes, b"hi".to_vec());

    let bytes = json_serializer(&JsonValue::Null).unwrap();
    assert_eq!(bytes, b"null".to_vec());
}

#[test]
fn test_render_object_with_escapes() {
    let v = JsonValue::Obj(vec![
        ("msg".to_string(), JsonLeaf::Str("say \"hi\"\n".to_string())),
        ("n".to_string(), JsonLeaf::Raw("7".to_string())),
        ("none".to_string(), JsonLeaf::Null),
    ]);
    let text = render_value(&v);
    assert_eq!(text, "{\"msg\":\"say \\\"hi\\\"\\n\",\"n\":7,\"none\":null}");

    // the rendered text is JSON that the JSON library reads back
    let parsed: serde_json::Value = serde_json::from_str(&text).unwrap();
    assert_eq!(parsed.get("msg").unwrap().as_str(), Some("say \"hi\"\n"));
    assert_eq!(parsed.get("n").unwrap().as_i64(), Some(7));
    assert!(parsed.get("none").unwrap().is_null());
}

#[test]
fn test_get_param_on_decoded_object() {
    let body = awpak_rs::body::body::BodyData {
        value: Some(json_parser(&br#"{"x":3,"s":"v","z":null}"#.to_vec()).unwrap()),
        files: vec![],
    };
    assert_eq!(body.get_param("x"), Some(JsonValue::Raw("3".to_string())));
    assert_eq!(body.get_param("s"), Some(JsonValue::Str("v".to_string())));
    assert_eq!(body.get_param("z"), Some(JsonValue::Null));
    assert_eq!(body.get_param("missing"), None);
}

#[test]
fn test_get_param_on_non_object() {
    let body = awpak_rs::body::body::BodyData {
        value: Some(JsonValue::Str("hi".to_string())),
        files: vec![],
    };
    assert_eq!(body.get_param("x"), None);

    let empty = awpak_rs::body::body::BodyData { value: None, files: vec![] };
    assert_eq!(empty.get_param("x"), None);
}
