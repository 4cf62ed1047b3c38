use awpak_rs::endpoint::endpoint::Endpoint;
use awpak_rs::error::error::Error;
use awpak_rs::services::endpoint_executor::{endpoint_url_method_match, get_endpoint};
use awpak_rs::util::url_utils::{normalize_url, url_pattern_is_dynamic, url_pattern_matches};

#[test]
fn test_normalize_url() {
    assert_eq!(normalize_url("/Hello/World"), "/hello/world");
    assert_eq!(normalize_url("hello"), "/hello");
    assert_eq!(normalize_url("/hello/"), "/hello");
    assert_eq!(normalize_url("/"), "/");
    assert_eq!(normalize_url(""), "/");
}

#[test]
fn test_path_variable_pattern() {
    let pattern = normalize_url("/user/{id}");

    assert!(url_pattern_is_dynamic(pattern.as_str()));

    assert!(url_pattern_matches(pattern.as_str(), "/user/42"));
    assert!(!url_pattern_matches(pattern.as_str(), "/user"));
    assert!(!url_pattern_matches(pattern.as_str(), "/user/42/extra"));
}

#[test]
fn test_literal_pattern() {
    let pattern = normalize_url("/user");

    assert!(!url_pattern_is_dynamic(pattern.as_str()));
    assert!(url_pattern_matches(pattern.as_str(), "/user"));
    assert!(!url_pattern_matches(pattern.as_str(), "/user/42"));
}

#[test]
fn test_pattern_with_two_variables() {
    let pattern = normalize_url("/a/{x}/b/{y}");
    assert!(url_pattern_matches(pattern.as_str(), "/a/1/b/2"));
    assert!(!url_pattern_matches(pattern.as_str(), "/a/1/c/2"));
    assert!(!url_pattern_matches(pattern.as_str(), "/a//b/2"));
}

#[test]
fn test_endpoint_method_match_is_case_insensitive() {
    let e = Endpoint::new("/user".to_string(), "GET".to_string());
    assert!(endpoint_url_method_match(&e, "/user", "get"));
    assert!(!endpoint_url_method_match(&e, "/user", "post"));
}

#[test]
fn test_first_registered_endpoint_wins() {
    // Both registered endpoints match the same path: the router is
    // deterministic and the first registered one is chosen.
    let endpoints = vec![
        Endpoint::new("/user/{id}".to_string(), "get".to_string()),
        Endpoint::new("/user/42".to_string(), "get".to_string()),
    ];

    let chosen = get_endpoint(&endpoints, "/user/42", "get");
    assert_eq!(chosen.unwrap(), 0);

    let endpoints_swapped = vec![
        Endpoint::new("/user/42".to_string(), "get".to_string()),
        Endpoint::new("/user/{id}".to_string(), "get".to_string()),
    ];

    let chosen = get_endpoint(&endpoints_swapped, "/user/42", "get");
    assert_eq!(chosen.unwrap(), 0);
}

#[test]
fn test_endpoint_not_found() {
    let endpoints = vec![Endpoint::new("/user".to_string(), "get".to_string())];

    let r = get_endpoint(&endpoints, "/Missing/", "get");
    match r {
        Err(Error::EndpointNotFound(m)) => assert_eq!(m, "Endpoint not found: /missing"),
        _ => panic!("expected an endpoint-not-found error"),
    }
}

#[test]
fn test_routing_normalizes_case_and_trailing_slash() {
    let endpoints = vec![Endpoint::new("/User".to_string(), "get".to_string())];
    assert_eq!(get_endpoint(&endpoints, "/user/", "GET").unwrap(), 0);
    assert_eq!(get_endpoint(&endpoints, "/USER", "get ").unwrap(), 0);
}

#[test]
fn test_endpoint_method_filters_out() {
    let endpoints = vec![
        Endpoint::new("/user".to_string(), "post".to_string()),
        Endpoint::new("/user".to_string(), "get".to_string()),
    ];
    assert_eq!(get_endpoint(&endpoints, "/user", "get").unwrap(), 1);
}
