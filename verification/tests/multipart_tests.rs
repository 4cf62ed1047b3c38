use awpak_rs::services::multipart::{get_body_from_multipart, is_file_part, PartData};
use awpak_rs::parser::value::JsonValue;
use awpak_rs::ContentTypeStrategy;

fn file_part(name: &str, filename: &str, content_type: &str, bytes: Vec<u8>) -> PartData {
    PartData {
        name: Some(name.to_string()),
        filename: Some(filename.to_string()),
        content_type: Some(content_type.to_string()),
        bytes: Some(bytes),
        text: None,
    }
}

fn data_part(name: &str, text: &str) -> PartData {
    PartData {
        name: Some(name.to_string()),
        filename: None,
        content_type: Some("text/plain".to_string()),
        bytes: None,
        text: Some(text.to_string()),
    }
}

#[test]
fn test_multipart_file_and_data_fields() {
    // One binary field and one text field: the binary one becomes a file
    // entry under its name, the text one a structured field.
    let parts = vec![
        file_part("img", "cat.png", "image/png", vec![1, 2, 3]),
        data_part("param_1", "hello"),
    ];

    let strategies = ContentTypeStrategy::new();
    let body = get_body_from_multipart(parts, &strategies);

    assert_eq!(body.files.len(), 1);
    assert_eq!(body.files[0].name, "img");
    assert_eq!(body.files[0].filename, "cat.png");
    assert_eq!(body.files[0].bytes, vec![1, 2, 3]);
    assert_eq!(body.files[0].content_type, "image/png");

    let param = body.get_param("param_1");
    assert_eq!(param, Some(JsonValue::Str("hello".to_string())));
}

#[test]
fn test_multipart_file_heuristic() {
    assert!(is_file_part(&Some("image/png".to_string())));
    assert!(is_file_part(&Some("application/octet-stream".to_string())));
    assert!(!is_file_part(&Some("text/plain".to_string())));
    assert!(!is_file_part(&Some("text/csv".to_string())));
    assert!(!is_file_part(&None));
}

#[test]
fn test_multipart_json_field() {
    let parts = vec![data_part("point", r#"{"x":3,"y":2}"#)];
    let strategies = ContentTypeStrategy::new();
    let body = get_body_from_multipart(parts, &strategies);

    let param = body.get_param("point").unwrap();
    assert_eq!(param, JsonValue::Raw(r#"{"x":3,"y":2}"#.to_string()));
}

#[test]
fn test_multipart_repeated_file_names() {
    let parts = vec![
        file_part("img", "a.png", "image/png", vec![1]),
        file_part("img", "b.png", "image/png", vec![2]),
    ];
    let strategies = ContentTypeStrategy::new();
    let body = get_body_from_multipart(parts, &strategies);

    let files = body.get_files("img").unwrap();
    assert_eq!(files.len(), 2);
    assert_eq!(files[0].filename, "a.png");
    assert_eq!(files[1].filename, "b.png");

    let first = body.get_file("img").unwrap();
    assert_eq!(first.filename, "a.png");
}

#[test]
fn test_multipart_unreadable_part_is_dropped() {
    let unreadable = PartData {
        name: Some("img".to_string()),
        filename: Some("a.png".to_string()),
        content_type: Some("image/png".to_string()),
        bytes: None,
        text: None,
    };
    let nameless = PartData {
        name: None,
        filename: None,
        content_type: Some("text/plain".to_string()),
        bytes: None,
        text: Some("orphan".to_string()),
    };
    let strategies = ContentTypeStrategy::new();
    let body = get_body_from_multipart(vec![unreadable, nameless], &strategies);
    assert!(body.files.is_empty());
    assert_eq!(body.value, Some(JsonValue::Obj(vec![])));
}

#[test]
fn test_multipart_file_without_filename_is_blank() {
    let part = PartData {
        name: Some("img".to_string()),
        filename: None,
        content_type: Some("image/png".to_string()),
        bytes: Some(vec![9]),
        text: None,
    };
    let strategies = ContentTypeStrategy::new();
    let body = get_body_from_multipart(vec![part], &strategies);
    assert_eq!(body.files[0].filename, "blank");
}

#[test]
fn test_multipart_repeated_data_name_keeps_last() {
    let parts = vec![data_part("a", "one"), data_part("a", "two")];
    let strategies = ContentTypeStrategy::new();
    let body = get_body_from_multipart(parts, &strategies);
    assert_eq!(body.get_param("a"), Some(JsonValue::Str("two".to_string())));
}
