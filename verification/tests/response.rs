use deboa::cookie::DeboaCookie;
use deboa::header::HeaderName;
use deboa::method::Version;
use deboa::response::{DeboaResponse, IntoBody};
use http::{HeaderValue, StatusCode};

const SAMPLE_TEST: &[u8] = b"Hello, world!";

#[test]
fn test_status() {
    let response = DeboaResponse::new(StatusCode::OK, Version::HTTP_11, http::HeaderMap::new(), SAMPLE_TEST.into_body());
    assert_eq!(response.status(), StatusCode::OK);
}

#[test]
fn test_headers() {
    let response = DeboaResponse::builder().status(StatusCode::OK).headers(http::HeaderMap::new()).empty();
    assert_eq!(*response.headers(), http::HeaderMap::new());
}

#[test]
fn test_builder_defaults() {
    let response = DeboaResponse::builder().build();
    assert_eq!(response.status(), StatusCode::OK);
    assert_eq!(response.version(), Version::HTTP_11);
    assert!(response.headers().is_empty());
    assert_eq!(response.bytes().unwrap(), Vec::<u8>::new());
}

#[test]
fn test_cookies() {
    let mut headers = http::HeaderMap::new();
    headers.insert(http::header::SET_COOKIE, HeaderValue::from_static("test=test"));
    let response = DeboaResponse::builder().status(StatusCode::OK).headers(headers).build();
    assert_eq!(response.cookies(), Ok(Some(vec![DeboaCookie::new("test", "test")])));
}

#[test]
fn test_cookies_none() {
    let response = DeboaResponse::builder().build();
    assert_eq!(response.cookies(), Ok(None));
}

#[test]
fn test_cookies_in_order_with_attributes() {
    let mut headers = http::HeaderMap::new();
    headers.append(http::header::SET_COOKIE, HeaderValue::from_static("a=1; Path=/"));
    headers.append(http::header::SET_COOKIE, HeaderValue::from_static(" b = two ; HttpOnly"));
    let response = DeboaResponse::builder().headers(headers).build();
    assert_eq!(
        response.cookies(),
        Ok(Some(vec![DeboaCookie::new("a", "1"), DeboaCookie::new("b", "two")]))
    );
}

#[test]
fn test_cookies_checked_errors() {
    let mut headers = http::HeaderMap::new();
    headers.append(http::header::SET_COOKIE, HeaderValue::from_static("a=1"));
    headers.append(http::header::SET_COOKIE, HeaderValue::from_static("novalue"));
    let response = DeboaResponse::builder().headers(headers).build();
    assert_eq!(
        response.cookies_checked(),
        Err(deboa::errors::DeboaError::Cookie { message: "Invalid cookie".to_string() })
    );
    let mut headers = http::HeaderMap::new();
    headers.append(http::header::SET_COOKIE, HeaderValue::from_bytes(b"a=\xc3\xa9").unwrap());
    let response = DeboaResponse::builder().headers(headers).build();
    assert_eq!(
        response.cookies_checked(),
        Err(deboa::errors::DeboaError::Cookie { message: "Invalid cookie header".to_string() })
    );
}

#[test]
fn test_header() {
    let response = DeboaResponse::builder()
        .status(StatusCode::OK)
        .header(HeaderName::accept_language(), "pt-BR")
        .build();
    assert_eq!(response.headers().get("accept-language"), Some(&HeaderValue::from_static("pt-BR")));
}

#[test]
fn test_header_invalid_value_ignored() {
    let response = DeboaResponse::builder().header(HeaderName::accept_language(), "pt\nBR").build();
    assert_eq!(response.headers().get("accept-language"), None);
}

#[test]
fn test_content_type() {
    let response = DeboaResponse::builder()
        .status(StatusCode::OK)
        .header(HeaderName::content_type(), "text/html")
        .build();
    assert_eq!(response.content_type(), Ok("text/html".to_string()));
}

#[test]
fn test_content_type_missing() {
    let response = DeboaResponse::builder().build();
    assert_eq!(
        response.content_type(),
        Err(deboa::errors::DeboaError::Header { message: "Header is missing".to_string() })
    );
}

#[test]
fn test_content_type_not_text() {
    let response = DeboaResponse::builder().header(HeaderName::content_type(), "text/é").build();
    assert_eq!(
        response.content_type(),
        Err(deboa::errors::DeboaError::Header {
            message: "Failed to read content-type:: failed to convert header to a str".to_string()
        })
    );
}

#[test]
fn test_content_length() {
    let response = DeboaResponse::builder()
        .status(StatusCode::OK)
        .header(HeaderName::content_length(), "9")
        .build();
    assert_eq!(response.content_length(), Ok(9));
}

#[test]
fn test_content_length_edges() {
    let length = |text: &str| DeboaResponse::builder().header(HeaderName::content_length(), text).build().content_length();
    assert_eq!(length("+42"), Ok(42));
    assert_eq!(length("18446744073709551615"), Ok(u64::MAX));
    let message = |m: &str| Err(deboa::errors::DeboaError::Header { message: format!("Failed to parse content-length: {}", m) });
    assert_eq!(length("18446744073709551616"), message("number too large to fit in target type"));
    assert_eq!(length(""), message("cannot parse integer from empty string"));
    assert_eq!(length("+"), message("invalid digit found in string"));
    assert_eq!(length("-1"), message("invalid digit found in string"));
    assert_eq!(length("12a"), message("invalid digit found in string"));
    assert_eq!(length(" 12"), message("invalid digit found in string"));
}

#[test]
fn test_content_length_agrees_with_std() {
    for text in ["0", "007", "+", "-", "", "1_0", "99999999999999999999", "184467440737095516150", "12x"] {
        let ours = deboa::response::parse_u64_text(&text.chars().collect::<Vec<char>>());
        let theirs = text.parse::<u64>();
        match (ours, theirs) {
            (Ok(a), Ok(b)) => assert_eq!(a, b),
            (Err(_), Err(_)) => {}
            (a, b) => panic!("disagree on {:?}: {:?} vs {:?}", text, a.is_ok(), b),
        }
    }
}

#[test]
fn test_to_bytes() {
    let response = DeboaResponse::new(StatusCode::OK, Version::HTTP_11, http::HeaderMap::new(), SAMPLE_TEST.into_body());
    let body = response.inner_body();
    assert_eq!(body, SAMPLE_TEST.to_vec());
}

#[test]
fn test_body() {
    let response = DeboaResponse::builder().body(SAMPLE_TEST).build();
    let body = response.inner_body();
    assert_eq!(body, SAMPLE_TEST.to_vec());
}

#[test]
fn test_text() {
    let response = DeboaResponse::builder().body(b"ol\xc3\xa1 \xff".to_vec()).build();
    assert_eq!(response.text().unwrap(), "olá \u{fffd}");
}

#[test]
fn test_version_mut() {
    let mut response = DeboaResponse::builder().version(Version::HTTP_11).build();
    *response.version_mut() = Version::HTTP_2;
    assert_eq!(response.version(), Version::HTTP_2);
}

#[test]
fn test_status_mut() {
    let mut response = DeboaResponse::builder().status(StatusCode::OK).build();
    *response.status_mut() = StatusCode::NOT_FOUND;
    assert_eq!(response.status(), StatusCode::NOT_FOUND);
}

#[test]
fn test_headers_mut() {
    let mut response = DeboaResponse::builder().status(StatusCode::OK).build();
    response
        .headers_mut()
        .insert(http::header::CONTENT_TYPE, HeaderValue::from_static("text/html"));
    assert_eq!(response.headers().get("content-type"), Some(&HeaderValue::from_static("text/html")));
}

#[test]
fn test_into_parts() {
    let response = DeboaResponse::builder()
        .status(StatusCode::OK)
        .header(HeaderName::content_type(), "text/html")
        .body(SAMPLE_TEST)
        .build();
    let (parts, body) = response.into_parts();
    assert_eq!(parts.status, StatusCode::OK);
    assert_eq!(parts.headers.get("content-type"), Some(&HeaderValue::from_static("text/html")));
    assert_eq!(body, SAMPLE_TEST.to_vec());
}
