use awpak_rs::io::io::IO;
use awpak_rs::io::request_data::RequestData;
use awpak_rs::io::response_data::ResponseData;
use awpak_rs::parser::value::JsonValue;
use awpak_rs::services::service_request::parse_accept_header;
use awpak_rs::services::service_response::{generate_response, get_initial_response,
    set_content_type};
use awpak_rs::ResponseContentTypeStrategy;

fn io_with_accept(accept: &str) -> IO {
    let mut request = RequestData::default();
    let mimes = parse_accept_header(accept);
    request.headers.set_accept(mimes);
    IO::new(request, get_initial_response(), None)
}

#[test]
fn test_negotiation_prefers_exact_over_wildcard() {
    // The exact type outranks the lower-quality wildcard entries.
    let mut io = io_with_accept("application/json, text/html;q=0.9, */*;q=0.6");
    let chosen = set_content_type(&mut io);
    assert_eq!(chosen, "application/json");
}

#[test]
fn test_negotiation_accept_all_takes_first_available() {
    // With the accept-all entry ranked highest, the first available type
    // wins; the response-capable set starts with text/plain.
    let mut io = io_with_accept("*/*;q=1.0,text/plain;q=0.5");
    let chosen = set_content_type(&mut io);
    assert_eq!(chosen, "text/plain");
}

#[test]
fn test_existing_supported_content_type_is_kept() {
    let mut io = io_with_accept("application/json");
    io.response
        .headers
        .replace_header("content-type".to_string(), "text/plain".to_string());
    let chosen = set_content_type(&mut io);
    assert_eq!(chosen, "text/plain");
}

#[test]
fn test_no_accept_header_defaults_to_first_supported() {
    let mut io = IO::new(RequestData::default(), get_initial_response(), None);
    let chosen = set_content_type(&mut io);
    assert_eq!(chosen, "text/plain");
}

#[test]
fn test_two_set_cookie_lines_are_emitted() {
    // Two values under the same cookie name serialize as two distinct
    // set-cookie lines, never one overwritten value.
    let mut io = IO::new(RequestData::default(), get_initial_response(), None);
    io.response.cookies.add_cookie("session_id=abc123").unwrap();
    io.response.cookies.add_cookie("session_id=def456").unwrap();

    let strategies = ResponseContentTypeStrategy::new();
    let wire = generate_response(&mut io, &strategies);

    let cookie_lines: Vec<&(String, Vec<u8>)> = wire
        .headers
        .iter()
        .filter(|(name, _)| name == "set-cookie")
        .collect();
    assert_eq!(cookie_lines.len(), 2);
    assert_eq!(cookie_lines[0].1, b"session_id=abc123".to_vec());
    assert_eq!(cookie_lines[1].1, b"session_id=def456".to_vec());
}

#[test]
fn test_generate_response_body_and_content_type() {
    let mut io = io_with_accept("application/json");
    io.response.body = Some(JsonValue::Raw(r#"{"a":1}"#.to_string()));

    let strategies = ResponseContentTypeStrategy::new();
    let wire = generate_response(&mut io, &strategies);

    assert_eq!(wire.status, 200);
    assert_eq!(wire.body, r#"{"a":1}"#.as_bytes().to_vec());

    let ct: Vec<&(String, Vec<u8>)> = wire
        .headers
        .iter()
        .filter(|(name, _)| name == "content-type")
        .collect();
    assert_eq!(ct.len(), 1);
    assert_eq!(ct[0].1, b"application/json".to_vec());
}

#[test]
fn test_generate_response_json_string_body_goes_out_bare() {
    let mut io = io_with_accept("application/json");
    io.response.body = Some(JsonValue::Str("hello".to_string()));

    let strategies = ResponseContentTypeStrategy::new();
    let wire = generate_response(&mut io, &strategies);

    assert_eq!(wire.body, b"hello".to_vec());
}

#[test]
fn test_generate_response_invalid_status_is_server_error() {
    let mut io = IO::new(RequestData::default(), get_initial_response(), None);
    io.response.status = 99;

    let strategies = ResponseContentTypeStrategy::new();
    let wire = generate_response(&mut io, &strategies);

    assert_eq!(wire.status, 500);
    assert!(wire.headers.is_empty());
    assert!(wire.body.is_empty());
}

#[test]
fn test_generate_response_keeps_custom_status() {
    let mut io = IO::new(RequestData::default(), get_initial_response(), None);
    io.response.status = 301;
    io.response
        .headers
        .replace_header("Location".to_string(), "/elsewhere".to_string());

    let strategies = ResponseContentTypeStrategy::new();
    let wire = generate_response(&mut io, &strategies);

    assert_eq!(wire.status, 301);
    let loc: Vec<&(String, Vec<u8>)> = wire
        .headers
        .iter()
        .filter(|(name, _)| name == "location")
        .collect();
    assert_eq!(loc.len(), 1);
    assert_eq!(loc[0].1, b"/elsewhere".to_vec());
}

#[test]
fn test_header_lookup_is_case_sensitive_at_storage() {
    // a capitalized Content-Type key is not the lowercase one negotiation
    // reads: the negotiated type is recorded beside it, and both lines go
    // out (names lower-cased on the wire)
    let mut io = io_with_accept("application/json");
    io.response
        .headers
        .replace_header("Content-Type".to_string(), "text/plain".to_string());

    let strategies = ResponseContentTypeStrategy::new();
    let wire = generate_response(&mut io, &strategies);

    let ct_values: Vec<&Vec<u8>> = wire
        .headers
        .iter()
        .filter(|(name, _)| name == "content-type")
        .map(|(_, v)| v)
        .collect();
    assert_eq!(ct_values.len(), 2);
    assert!(ct_values.contains(&&b"text/plain".to_vec()));
    assert!(ct_values.contains(&&b"application/json".to_vec()));
}

#[test]
fn test_header_with_invalid_wire_value_is_dropped() {
    let mut io = IO::new(RequestData::default(), get_initial_response(), None);
    io.response
        .headers
        .replace_header("x-bad".to_string(), "line\r\nbreak".to_string());
    io.response
        .headers
        .replace_header("x-good".to_string(), "fine".to_string());

    let strategies = ResponseContentTypeStrategy::new();
    let wire = generate_response(&mut io, &strategies);

    assert!(!wire.headers.iter().any(|(name, _)| name == "x-bad"));
    assert!(wire.headers.iter().any(|(name, _)| name == "x-good"));
}
