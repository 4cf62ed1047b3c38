use awpak_rs::error::error::Error as CoreError;
use awpak_rs::io::cookies::Cookies;
use awpak_rs::io::header_data::HeaderData;
use awpak_rs::io::headers::Headers;
use awpak_rs::io::io::{ContextValue, IO};
use awpak_rs::io::request_data::RequestData;
use awpak_rs::io::response_data::ResponseData;
use awpak_rs::services::error::Error as ServiceError;

#[test]
fn test_error_status_codes() {
    assert_eq!(CoreError::EndpointNotFound("x".to_string()).get_status_code(), 404);
    assert_eq!(CoreError::ParserError("x".to_string()).get_status_code(), 500);
    assert_eq!(CoreError::RegexError("x".to_string()).get_status_code(), 500);
    assert_eq!(CoreError::HomePathNotFound("x".to_string()).get_status_code(), 500);
    assert_eq!(CoreError::FileNotFound("x".to_string()).get_status_code(), 500);
    assert_eq!(CoreError::EndpointExecution("x".to_string()).get_status_code(), 500);

    assert_eq!(ServiceError::EndpointNotFound("x".to_string()).get_status_code(), 404);
    assert_eq!(ServiceError::EndpointExecution("x".to_string()).get_status_code(), 500);
    assert_eq!(ServiceError::ParserError("x".to_string()).get_status_code(), 500);
    assert_eq!(ServiceError::RegexError("x".to_string()).get_status_code(), 500);
}

#[test]
fn test_headers_add_and_replace() {
    let mut headers = Headers::new();
    headers.add_header("X-Custom".to_string(), "one".to_string());
    headers.add_header("X-Custom".to_string(), "two".to_string());

    assert!(headers.has("X-Custom"));
    assert_eq!(headers.get_value("X-Custom").unwrap(), "one");
    assert_eq!(
        headers.get_value_bytes("X-Custom").unwrap(),
        &b"one".to_vec()
    );

    headers.replace_header("X-Custom".to_string(), "three".to_string());
    assert_eq!(headers.get_value("X-Custom").unwrap(), "three");

    assert!(headers.replace_header_if_exists("X-Custom".to_string(), "four".to_string()).is_ok());
    assert!(headers
        .replace_header_if_exists("X-Missing".to_string(), "four".to_string())
        .is_err());
    assert!(!headers.has("X-Missing"));
}

#[test]
fn test_headers_iterators() {
    let mut headers = Headers::new();
    headers.add_header("a".to_string(), "1".to_string());
    headers.add_header("b".to_string(), "2".to_string());
    headers.add_header("b".to_string(), "3".to_string());

    let mut it = headers.iter();
    let first = it.next().unwrap();
    assert_eq!(first.name, "a");
    let second = it.next().unwrap();
    assert_eq!(second.name, "b");
    assert_eq!(second.value.as_deref(), Some("2"));
    assert!(it.next().is_none());

    let mut all = headers.iter_all();
    let first = all.next().unwrap();
    assert_eq!(first.len(), 1);
    let second = all.next().unwrap();
    assert_eq!(second.len(), 2);
    assert!(all.next().is_none());
}

#[test]
fn test_replace_headers_keeps_accept() {
    let mut target = Headers::new();
    target.add_header("a".to_string(), "old".to_string());

    let mut other = Headers::new();
    other.add_header("a".to_string(), "new".to_string());
    other.add_header("b".to_string(), "2".to_string());
    other.add_header("Accept".to_string(), "ignored".to_string());

    target.replace_headers(other);

    assert_eq!(target.get_value("a").unwrap(), "new");
    assert_eq!(target.get_value("b").unwrap(), "2");
    assert!(!target.has("Accept"));
}

#[test]
fn test_cookies_add_replace_find() {
    let mut cookies = Cookies::new();
    cookies.add_cookie("id=123").unwrap();
    cookies.add_cookie("id=456").unwrap();

    let found = cookies.find_all_by_name("id");
    assert_eq!(found.len(), 2);

    cookies.replace_cookie("id=789").unwrap();
    let found = cookies.find_all_by_name("id");
    assert_eq!(found, vec!["id=789".to_string()]);

    assert!(cookies.add_cookie("no cookie here").is_err());

    let mut it = cookies.iter();
    assert_eq!(it.next().unwrap(), "id=789");
    assert!(it.next().is_none());

    let mut all = cookies.iter_all();
    assert_eq!(all.next().unwrap(), vec!["id=789".to_string()]);
    assert!(all.next().is_none());
}

#[test]
fn test_cookie_with_attributes_keeps_canonical_text() {
    let mut cookies = Cookies::new();
    cookies
        .add_cookie("session_id=abc123; Path=/; HttpOnly")
        .unwrap();
    let c = cookies.find_first_by_name("session_id").unwrap();
    assert!(c.starts_with("session_id=abc123"));
    assert!(c.contains("HttpOnly"));
}

#[test]
fn test_io_context_slot() {
    let mut io = IO::new(RequestData::default(), ResponseData::default(), None);
    assert!(io.get_context().is_none());

    io.set_context(ContextValue::Int(7));
    match io.get_context() {
        Some(ContextValue::Int(n)) => assert_eq!(*n, 7),
        _ => panic!("expected the stored context"),
    }

    io.set_context(ContextValue::Text("hi".to_string()));
    match io.get_context() {
        Some(ContextValue::Text(s)) => assert_eq!(s, "hi"),
        _ => panic!("expected the replaced context"),
    }

    let taken = io.take_context();
    assert!(matches!(taken, Some(ContextValue::Text(_))));
    assert!(io.get_context().is_none());
}

#[test]
fn test_request_and_response_accessors() {
    let request = RequestData::default();
    assert_eq!(request.method, "get");
    assert_eq!(request.uri.path, "/");
    let hs = request.get_headers();
    assert!(!hs.has("anything"));
    let _cs = request.get_cookies();

    let response = ResponseData::default();
    assert_eq!(response.status, 200);
    assert!(response.body.is_none());
    let _ = response.get_headers();
    let _ = response.get_cookies();
}
