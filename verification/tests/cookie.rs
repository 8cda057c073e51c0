use deboa::cookie::{CookieMap, DeboaCookie};
use deboa::request::DeboaRequest;
use http::HeaderValue;

#[test]
fn test_new_cookie() {
    let cookie = DeboaCookie::new("test", "test");
    assert_eq!(cookie.name(), "test");
    assert_eq!(cookie.value(), "test");
}

#[test]
fn test_parse_from_header() {
    let cookie = DeboaCookie::parse_from_header("test=test").unwrap();
    assert_eq!(cookie.name(), "test");
    assert_eq!(cookie.value(), "test");
}

#[test]
fn test_parse_from_header_with_attributes() {
    let cookie = DeboaCookie::parse_from_header(" id = 42 ; Path=/; Secure").unwrap();
    assert_eq!(cookie.name(), "id");
    assert_eq!(cookie.value(), "42");
    let cookie = DeboaCookie::parse_from_header("a=b=c").unwrap();
    assert_eq!(cookie.value(), "b=c");
}

#[test]
fn test_parse_from_header_invalid() {
    assert!(DeboaCookie::parse_from_header("novalue").is_err());
    assert!(DeboaCookie::parse_from_header(" =x").is_err());
    assert!(DeboaCookie::parse_from_header("; a=b").is_err());
}

#[test]
fn test_request_cookie_added() {
    let request = DeboaRequest::get("https://localhost:8000")
        .unwrap()
        .cookie(DeboaCookie::new("a", "1"))
        .unwrap()
        .cookie(DeboaCookie::new("b", "2"))
        .unwrap()
        .build()
        .unwrap();
    assert_eq!(request.headers().get("cookie"), Some(&HeaderValue::from_static("a=1; b=2")));
    let cookies = request.cookies().unwrap();
    assert_eq!(cookies.len(), 2);
    assert_eq!(cookies.get("a"), Some(DeboaCookie::new("a", "1")));
    assert_eq!(cookies.get("b"), Some(DeboaCookie::new("b", "2")));
}

#[test]
fn test_request_cookies_map_round_trip() {
    let mut map = CookieMap::new();
    map.insert("session".to_string(), DeboaCookie::new("session", "abc"));
    map.insert("theme".to_string(), DeboaCookie::new("theme", "dark"));
    let request = DeboaRequest::get("https://localhost:8000").unwrap().cookies(map).unwrap().build().unwrap();
    let text = request.headers().get("cookie").unwrap().to_str().unwrap().to_string();
    assert!(text == "session=abc; theme=dark" || text == "theme=dark; session=abc");
    let back = request.cookies().unwrap();
    assert_eq!(back.len(), 2);
    assert_eq!(back.get("session"), Some(DeboaCookie::new("session", "abc")));
    assert_eq!(back.get("theme"), Some(DeboaCookie::new("theme", "dark")));
}

#[test]
fn test_request_without_cookies() {
    let request = DeboaRequest::get("https://localhost:8000").unwrap().build().unwrap();
    assert!(request.cookies().is_none());
}

#[test]
fn test_request_cookie_invalid_value() {
    let result = DeboaRequest::get("https://localhost:8000").unwrap().cookie(DeboaCookie::new("a", "x\ny"));
    match result {
        Err(deboa::errors::DeboaError::Cookie { message }) => assert_eq!(message, "failed to parse header value"),
        _ => panic!("expected a cookie error"),
    }
}

#[test]
fn test_request_cookies_skips_pieces_without_value() {
    let request = DeboaRequest::from_str("GET https://localhost:8000\nCookie: a=1; junk; b = 2").unwrap();
    let cookies = request.cookies().unwrap();
    assert_eq!(cookies.len(), 2);
    assert_eq!(cookies.get("a"), Some(DeboaCookie::new("a", "1")));
    assert_eq!(cookies.get("b "), Some(DeboaCookie::new("b ", " 2")));
}

#[test]
fn test_set_expires() {
    let mut cookie = DeboaCookie::new("test", "test");
    let now = deboa::cookie::Expiration::DateTime(1_700_000_000);
    cookie.set_expires(now);
    assert_eq!(cookie.expires(), Some(now));
}

#[test]
fn test_set_path() {
    let mut cookie = DeboaCookie::new("test", "test");
    cookie.set_path("/test");
    assert_eq!(cookie.path().unwrap(), "/test");
}

#[test]
fn test_set_domain() {
    let mut cookie = DeboaCookie::new("test", "test");
    cookie.set_domain("test.com");
    assert_eq!(cookie.domain().unwrap(), "test.com");
}

#[test]
fn test_set_secure() {
    let mut cookie = DeboaCookie::new("test", "test");
    cookie.set_secure(true);
    assert!(cookie.secure().unwrap());
}

#[test]
fn test_set_http_only() {
    let mut cookie = DeboaCookie::new("test", "test");
    cookie.set_http_only(true);
    assert!(cookie.http_only().unwrap());
}

#[test]
fn test_display() {
    let cookie = DeboaCookie::parse_from_header("test=test").unwrap();
    assert_eq!(cookie.to_string(), "test=test");
}

#[test]
fn cookie_test_debug() {
    let cookie = DeboaCookie::parse_from_header("test=test").unwrap();
    assert_eq!(
        format!("{:?}", cookie),
        "DeboaCookie { name: \"test\", value: \"test\", expires: None, path: None, domain: None, secure: None, http_only: None }"
    );
}
