use awpak_rs::config_data::home::normalize_path;
use awpak_rs::io::header_data::HeaderData;
use awpak_rs::io::request_data::Uri;
use awpak_rs::parser::value::JsonValue;
use awpak_rs::services::service_request::{
    get_body, get_content_type, get_cookies, get_headers, request_boundary,
};
use awpak_rs::server::ServerParams;
use awpak_rs::ContentTypeStrategy;

fn text_header(name: &str, value: &str) -> HeaderData {
    HeaderData::new(
        name.to_string(),
        value.as_bytes().to_vec(),
        Some(value.to_string()),
    )
}

#[test]
fn test_get_headers_collects_and_repeats() {
    let headers = get_headers(vec![
        text_header("x-a", "1"),
        text_header("set-cookie", "a=1"),
        text_header("set-cookie", "b=2"),
    ]);
    assert!(headers.has("x-a"));
    assert_eq!(headers.get_value("x-a").unwrap(), "1");
    assert_eq!(headers.get("set-cookie").unwrap().value.as_deref(), Some("a=1"));
}

#[test]
fn test_get_headers_parses_accept() {
    let headers = get_headers(vec![text_header(
        "accept",
        "application/json, text/html;q=0.9, */*;q=0.6",
    )]);
    // the accept header is stored like any other and also drives negotiation
    assert!(headers.has("accept"));
    let chosen = headers.content_negotiation(&["text/html", "application/json"]);
    assert_eq!(chosen.unwrap(), "application/json");
}

#[test]
fn test_get_cookies_appends_and_skips_invalid() {
    let cookies = get_cookies(vec![
        "a=1".to_string(),
        "not a cookie".to_string(),
        "a=2".to_string(),
        "b=3".to_string(),
    ]);
    let all_a = cookies.find_all_by_name("a");
    assert_eq!(all_a, vec!["a=1".to_string(), "a=2".to_string()]);
    assert_eq!(cookies.find_first_by_name("b").unwrap(), "b=3");
    assert!(cookies.find_first_by_name("c").is_none());
}

#[test]
fn test_get_content_type_defaults() {
    assert_eq!(get_content_type(None), "text/plain");
    let h = text_header("content-type", "application/json");
    assert_eq!(get_content_type(Some(&h)), "application/json");
    let h = text_header("content-type", "application/xml");
    assert_eq!(get_content_type(Some(&h)), "text/plain");
}

#[test]
fn test_get_body_decodes_by_content_type() {
    let strategies = ContentTypeStrategy::new();

    let headers = get_headers(vec![text_header("content-type", "application/json")]);
    let body = get_body(&br#"{"x":1}"#.to_vec(), &headers, &strategies);
    assert_eq!(body.value, Some(JsonValue::Raw(r#"{"x":1}"#.to_string())));
    assert!(body.files.is_empty());

    // an unparseable JSON body leaves the value empty; the request goes on
    let body = get_body(&b"{oops".to_vec(), &headers, &strategies);
    assert_eq!(body.value, None);

    // without a content-type header the body is read as plain text
    let headers = get_headers(vec![]);
    let body = get_body(&b"hello".to_vec(), &headers, &strategies);
    assert_eq!(body.value, Some(JsonValue::Str("hello".to_string())));
}

#[test]
fn test_request_boundary() {
    let headers = get_headers(vec![text_header(
        "content-type",
        "multipart/form-data; boundary=ABCDEFG",
    )]);
    assert_eq!(request_boundary(&headers).unwrap(), "ABCDEFG");

    let headers = get_headers(vec![text_header("content-type", "application/json")]);
    assert!(request_boundary(&headers).is_none());

    let headers = get_headers(vec![]);
    assert!(request_boundary(&headers).is_none());
}

#[test]
fn test_uri_query_map() {
    let uri = Uri::new(
        Some("example.org".to_string()),
        "/hello".to_string(),
        Some("name=John&age=24".to_string()),
        Some(3000),
        Some("http".to_string()),
    );
    assert_eq!(uri.query.as_deref(), Some("name=John&age=24"));
    let map = uri.query_map.unwrap();
    let mut pairs: Vec<(String, String)> = map;
    pairs.sort();
    assert_eq!(
        pairs,
        vec![
            ("age".to_string(), "24".to_string()),
            ("name".to_string(), "John".to_string())
        ]
    );
}

#[test]
fn test_uri_blank_query_is_absent() {
    let uri = Uri::new(None, "/".to_string(), Some("   ".to_string()), None, None);
    assert!(uri.query.is_none());
    assert!(uri.query_map.is_none());
}

#[test]
fn test_normalize_path() {
    assert_eq!(normalize_path("/tmp".to_string()), "/tmp/");
    assert_eq!(normalize_path("/tmp/////////".to_string()), "/tmp/");
    assert_eq!(normalize_path("/".to_string()), "/");
}

#[test]
fn test_server_params() {
    let p = ServerParams::new("127.0.0.1", "3000");
    assert_eq!(p.get_ip_port(), "127.0.0.1:3000");
}
