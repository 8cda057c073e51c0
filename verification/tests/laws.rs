//! Concrete cases of the laws that the library proves.
use deboa::cookie::{CookieMap, DeboaCookie};
use deboa::form::{DeboaForm, EncodedForm, FieldSource, MultiPartForm};
use deboa::header::HeaderName;
use deboa::request::DeboaRequest;
use deboa::request_ext::MethodExt;
use deboa::response::DeboaResponse;
use http::HeaderValue;

#[test]
fn law_case_header_last_wins() {
    let twice = DeboaRequest::get("https://localhost:8000")
        .unwrap()
        .header(HeaderName::accept(), "text/plain")
        .unwrap()
        .header(HeaderName::accept(), "text/html")
        .unwrap()
        .build()
        .unwrap();
    assert_eq!(twice.headers().get_all("accept").iter().count(), 1);
    assert_eq!(twice.headers().get("accept"), Some(&HeaderValue::from_static("text/html")));
}

#[test]
fn law_case_cookie_round_trip() {
    let request = DeboaRequest::get("https://localhost:8000")
        .unwrap()
        .cookie(DeboaCookie::new("sid", "a1b2"))
        .unwrap()
        .build()
        .unwrap();
    let cookies = request.cookies().unwrap();
    assert_eq!(cookies.len(), 1);
    assert_eq!(cookies.get("sid"), Some(DeboaCookie::new("sid", "a1b2")));
}

#[test]
fn law_case_cookies_round_trip_empty_map() {
    let request = DeboaRequest::get("https://localhost:8000").unwrap().cookies(CookieMap::new()).unwrap().build().unwrap();
    assert_eq!(request.headers().get("cookie"), Some(&HeaderValue::from_static("")));
    assert_eq!(request.cookies().unwrap().len(), 0);
}

#[test]
fn law_case_cookie_text_round_trip() {
    let cookie = DeboaCookie::parse_from_header("lang=pt-BR").unwrap();
    assert_eq!(cookie, DeboaCookie::new("lang", "pt-BR"));
}

#[test]
fn law_case_header_read_back() {
    let response = DeboaResponse::builder().header(HeaderName::content_type(), "application/json; charset=utf-8").build();
    assert_eq!(response.content_type(), Ok("application/json; charset=utf-8".to_string()));
}

#[test]
fn law_case_content_length_round_trip() {
    for n in [0u64, 7, 10, 1234567890, u64::MAX] {
        let response = DeboaResponse::builder().header(HeaderName::content_length(), &n.to_string()).build();
        assert_eq!(response.content_length(), Ok(n));
    }
}

#[test]
fn law_case_field_in_place() {
    let form = EncodedForm::builder().field("a", "1").field("b", "2").field("a", "3").field("c", "4");
    assert_eq!(form.build(), b"a=3&b=2&c=4".to_vec());
}

#[test]
fn law_case_multipart_framing() {
    let form = MultiPartForm::builder().field("k", "v");
    let boundary = form.boundary();
    let body = form.build_from(&vec![FieldSource::Text]).unwrap();
    assert!(body.starts_with(format!("--{}\r\n", boundary).as_bytes()));
    assert!(body.ends_with(format!("--{}--\r\n", boundary).as_bytes()));
    let empty = MultiPartForm::builder();
    let boundary = empty.boundary();
    assert_eq!(empty.build_from(&vec![]).unwrap(), format!("--{}\r\n", boundary).into_bytes());
}

#[test]
fn law_case_cookie_chain_round_trip() {
    let request = DeboaRequest::get("https://localhost:8000")
        .unwrap()
        .cookie(DeboaCookie::new("a", "1"))
        .unwrap()
        .cookie(DeboaCookie::new("b", "two"))
        .unwrap()
        .cookie(DeboaCookie::new("c", "x=y"))
        .unwrap()
        .build()
        .unwrap();
    let cookies = request.cookies().unwrap();
    assert_eq!(cookies.len(), 3);
    assert_eq!(cookies.get("a"), Some(DeboaCookie::new("a", "1")));
    assert_eq!(cookies.get("b"), Some(DeboaCookie::new("b", "two")));
    assert_eq!(cookies.get("c"), Some(DeboaCookie::new("c", "x=y")));
}

#[test]
fn law_case_method_names() {
    let request = "post".from_url("https://localhost:8000").unwrap().build().unwrap();
    assert_eq!(request.method(), &deboa::method::Method::POST);
}
