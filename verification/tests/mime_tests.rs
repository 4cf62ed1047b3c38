use awpak_rs::io::mime::Mime;

#[test]
fn test_from_accept_str_application_json() {
    let accept = "application/json";

    let mime = Mime::from_accept_str(&accept);

    assert!(mime.is_ok());

    let mime = mime.unwrap();

    assert_eq!(mime.q.unwrap(), 1000);

    assert_eq!(mime.media_type, "application");
    assert_eq!(mime.subtype, "json");
}

#[test]
fn test_from_accept_str_text_html_q_0_9() {
    let accept = "text/html;q=0.9";

    let mime = Mime::from_accept_str(&accept);

    assert!(mime.is_ok());

    let mime = mime.unwrap();

    assert_eq!(mime.q.unwrap(), 900);

    assert_eq!(mime.media_type, "text");
    assert_eq!(mime.subtype, "html");
}

#[test]
fn test_from_accept_str_stars_q_0_6() {
    let accept = "*/*;q=0.6";

    let mime = Mime::from_accept_str(&accept);

    assert!(mime.is_ok());

    let mime = mime.unwrap();

    assert_eq!(mime.q.unwrap(), 600);

    assert_eq!(mime.media_type, "*");
    assert_eq!(mime.subtype, "*");
}

#[test]
fn test_from_accept_str_invalid_1() {
    let accept = "*/*;rq=0.6";

    let mime = Mime::from_accept_str(&accept);

    assert!(mime.is_err());
}

#[test]
fn test_from_accept_str_invalid_2() {
    let accept = "application/json, text/html;q=0.9, text/plain;q=0.8, */*;q=0.6";

    let mime = Mime::from_accept_str(&accept);

    assert!(mime.is_err());
}

#[test]
fn test_from_accept_str_invalid_3() {
    let accept = "*/*;q=s0.6";

    let mime = Mime::from_accept_str(&accept);

    assert!(mime.is_err());
}

#[test]
fn test_from_accept_str_invalid_4() {
    let accept = "application";

    let mime = Mime::from_accept_str(&accept);

    assert!(mime.is_err());
}

#[test]
fn test_from_accept_str_media_type_with_parameter() {
    // the quality is read from the one `;q=` separator, and the media type
    // is everything before the first `;`
    let mime = Mime::from_accept_str("text/html;level=1;q=0.5").unwrap();

    assert_eq!(mime.media_type, "text");
    assert_eq!(mime.subtype, "html");
    assert_eq!(mime.q, Some(500));

    let mime = Mime::from_accept_str(" text/html ").unwrap();

    assert_eq!(mime.media_type, "text");
    assert_eq!(mime.subtype, "html");
    assert_eq!(mime.q, Some(1000));
}

#[test]
fn test_mime_type_and_wildcards() {
    let m = Mime::new("application".to_string(), "json".to_string(), None);
    assert_eq!(m.get_mime_type(), "application/json");
    assert!(!m.accept_all());
    assert!(!m.accept_all_media_types());
    assert!(!m.accept_all_subtypes());

    let w = Mime::new("*".to_string(), "*".to_string(), Some(1000));
    assert!(w.accept_all());
}

#[test]
fn test_accept_order() {
    let high = Mime::new("a".to_string(), "b".to_string(), Some(900));
    let low = Mime::new("c".to_string(), "d".to_string(), Some(100));
    let none = Mime::new("e".to_string(), "f".to_string(), None);

    assert!(high.precedes(&low));
    assert!(!low.precedes(&high));
    assert!(high.precedes(&none));
    assert!(!none.precedes(&high));
    assert!(!none.precedes(&none));
    assert!(none.same_rank(&none));
    assert!(!high.same_rank(&low));
}
