use awpak_rs::io::headers::Headers;
use awpak_rs::io::mime::Mime;

const AVAILABLES: &[&str] = &["text/html", "text/plain", "application/json"];

fn headers_with_accept(mimes: Vec<Mime>) -> Headers {
    let mut headers = Headers::new();
    headers.set_accept(mimes);
    headers
}

#[test]
fn test_content_negotiation() {
    let headers = headers_with_accept(vec![
        Mime::new("*".to_string(), "*".to_string(), Some(600)),
        Mime::new("*".to_string(), "json".to_string(), Some(900)),
        Mime::new("application".to_string(), "json".to_string(), Some(1000)),
        Mime::new("application".to_string(), "*".to_string(), Some(800)),
    ]);

    let media_type = headers.content_negotiation(AVAILABLES);

    assert!(media_type.is_some());

    let media_type = media_type.unwrap();

    assert_eq!(media_type, "application/json");
}

#[test]
fn test_content_negotiation_accept_all() {
    let headers = headers_with_accept(vec![
        Mime::new("*".to_string(), "*".to_string(), Some(1200)),
        Mime::new("*".to_string(), "json".to_string(), Some(900)),
        Mime::new("application".to_string(), "json".to_string(), Some(1000)),
        Mime::new("application".to_string(), "*".to_string(), Some(800)),
    ]);

    let media_type = headers.content_negotiation(AVAILABLES);

    assert!(media_type.is_some());

    let media_type = media_type.unwrap();

    assert_eq!(media_type, "text/html");
}

#[test]
fn test_content_negotiation_accept_all_media_types() {
    let headers = headers_with_accept(vec![
        Mime::new("*".to_string(), "*".to_string(), Some(600)),
        Mime::new("*".to_string(), "plain".to_string(), Some(1900)),
        Mime::new("application".to_string(), "json".to_string(), Some(1000)),
        Mime::new("application".to_string(), "*".to_string(), Some(800)),
    ]);

    let media_type = headers.content_negotiation(AVAILABLES);

    assert!(media_type.is_some());

    let media_type = media_type.unwrap();

    assert_eq!(media_type, "text/plain");
}

#[test]
fn test_content_negotiation_accept_all_subtypes() {
    let headers = headers_with_accept(vec![
        Mime::new("*".to_string(), "*".to_string(), Some(600)),
        Mime::new("*".to_string(), "json".to_string(), Some(900)),
        Mime::new("application".to_string(), "json".to_string(), Some(1000)),
        Mime::new("text".to_string(), "*".to_string(), Some(1200)),
    ]);

    let media_type = headers.content_negotiation(AVAILABLES);

    assert!(media_type.is_some());

    let media_type = media_type.unwrap();

    assert_eq!(media_type, "text/html");
}

#[test]
fn test_content_negotiation_no_accept_entries() {
    let headers = Headers::new();
    assert!(headers.content_negotiation(AVAILABLES).is_none());
}

#[test]
fn test_content_negotiation_no_availables() {
    let headers = headers_with_accept(vec![Mime::new(
        "*".to_string(),
        "*".to_string(),
        Some(1000),
    )]);
    let empty: &[&str] = &[];
    assert!(headers.content_negotiation(empty).is_none());
}

#[test]
fn test_accept_header_quality_order() {
    // One entry of each quality; same-quality duplicates are dropped.
    let headers = headers_with_accept(vec![
        Mime::new("text".to_string(), "plain".to_string(), Some(500)),
        Mime::new("application".to_string(), "json".to_string(), Some(900)),
        Mime::new("text".to_string(), "csv".to_string(), Some(900)),
    ]);

    let chosen = headers.content_negotiation(AVAILABLES).unwrap();
    assert_eq!(chosen, "application/json");
}
