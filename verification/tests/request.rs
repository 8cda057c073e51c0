use deboa::form::{DeboaForm, EncodedForm, FieldSource};
use deboa::header::HeaderName;
use deboa::method::{Method, Version};
use deboa::request::{delete, get, patch, post, put, query, DeboaRequest, RequestParts};
use deboa::request_ext::{IntoRequest, MethodExt};
use deboa::uri::Uri;
use deboa::url::Url;
use http::HeaderValue;

const TEST_URL: &str = "https://localhost:8000";
const TEST_URI: &str = "https://localhost:8000/";

fn test_url() -> Url {
    Url::parse(TEST_URL).unwrap()
}

#[test]
fn test_method_ext_from_url() {
    let methods = vec![Method::GET, Method::POST, Method::QUERY, Method::PUT, Method::PATCH, Method::DELETE];
    for method in &methods {
        let request = method.clone().from_url(TEST_URL).unwrap().build().unwrap();
        assert_eq!(request.method(), method);
        assert_eq!(request.uri().as_str(), TEST_URI);
    }
}

#[test]
fn test_method_ext_to_url() {
    let request = Method::POST.to_url(TEST_URL).unwrap().build().unwrap();
    assert_eq!(request.method(), &Method::POST);
    assert_eq!(request.uri().as_str(), TEST_URI);
}

#[test]
fn test_str_method_ext_from_url() {
    let methods = vec![
        ("GET", Method::GET),
        ("POST", Method::POST),
        ("QUERY", Method::QUERY),
        ("PATCH", Method::PATCH),
        ("PUT", Method::PUT),
        ("DELETE", Method::DELETE),
    ];
    for (name, method) in methods {
        let request = name.from_url(TEST_URL).unwrap().build().unwrap();
        assert_eq!(request.method(), &method);
        assert_eq!(request.uri().as_str(), TEST_URI);
    }
}

#[test]
fn test_str_method_ext_lower_case() {
    let request = "patch".from_url(TEST_URL).unwrap().build().unwrap();
    assert_eq!(request.method(), &Method::PATCH);
}

#[test]
fn test_str_method_ext_to_url() {
    let request = "POST".to_url(TEST_URL).unwrap().build().unwrap();
    assert_eq!(request.method(), &Method::POST);
    assert_eq!(request.uri().as_str(), TEST_URI);
}

#[test]
fn test_into_url() {
    let url = test_url();
    let request = DeboaRequest::get(url).unwrap().build().unwrap();
    assert_eq!(request.uri().as_str(), TEST_URI);
}

#[test]
fn test_into_request_from_str() {
    let url = test_url();
    let request = url.clone().into_request().unwrap();
    assert_eq!(request.uri().as_str(), TEST_URI);
}

#[test]
fn test_into_request_from_str_slice() {
    let url = "http://example.com";
    let request = url.into_request().unwrap();
    assert_eq!(request.uri().as_str(), "http://example.com/");
}

#[test]
fn test_into_request_from_string() {
    let url = test_url();
    let post_url = format!("{}posts/{}", url.as_str(), 1);
    let request = post_url.clone().into_request().unwrap();
    assert_eq!(request.uri().as_str(), "https://localhost:8000/posts/1");
}

#[test]
fn test_into_request_invalid_url() {
    let request = "not a url".into_request();
    assert!(request.is_err());
}

#[test]
fn test_into_str() {
    let url = test_url();
    let request = DeboaRequest::get(url.clone()).unwrap().build().unwrap();
    assert_eq!(request.uri().as_str(), TEST_URI);
}

#[test]
fn test_into_string() {
    let url = test_url();
    let request = DeboaRequest::get(url.clone()).unwrap().build().unwrap();
    assert_eq!(request.uri().as_str(), TEST_URI);
}

#[test]
fn test_from_str_method_and_url() {
    let request = DeboaRequest::from_str(
        r##"
    GET https://localhost:8000
    "##,
    )
    .unwrap();
    assert_eq!(request.method(), &Method::GET);
    assert_eq!(request.uri().as_str(), TEST_URI);
}

#[test]
fn test_from_str_headers() {
    let request = DeboaRequest::from_str(
        r##"
    GET https://localhost:8000
    Content-Type: application/json
    "##,
    )
    .unwrap();
    assert_eq!(
        request.headers().get("content-type"),
        Some(&HeaderValue::from_str("application/json").unwrap())
    );
    assert_eq!(request.headers().get("host"), Some(&HeaderValue::from_str("localhost:8000").unwrap()));
}

#[test]
fn test_from_str_body() {
    let request = DeboaRequest::from_str("POST https://localhost:8000/posts\nContent-Type: text/plain\n\nhello\nworld").unwrap();
    assert_eq!(request.method(), &Method::POST);
    assert_eq!(request.version(), Version::HTTP_2);
    assert_eq!(request.body(), b"helloworld".to_vec());
}

#[test]
fn test_from_str_missing_request_line() {
    let request = DeboaRequest::from_str("Content-Type: text/plain");
    assert!(request.is_err());
}

#[test]
fn test_base_url() {
    let url = test_url();
    let api = DeboaRequest::get(url.clone()).unwrap().build().unwrap();
    assert_eq!(api.uri().as_str(), TEST_URI);
}

#[test]
fn test_set_headers() {
    let url = test_url();
    let request = DeboaRequest::get(url)
        .unwrap()
        .header(HeaderName::content_type(), "application/json")
        .unwrap()
        .build()
        .unwrap();
    assert_eq!(
        request.headers().get("content-type"),
        Some(&HeaderValue::from_str("application/json").unwrap())
    );
}

#[test]
fn test_set_headers_as_tuple() {
    let headers = vec![(HeaderName::content_type(), "application/json".to_string())];
    let request = DeboaRequest::get(test_url()).unwrap().headers(headers).build().unwrap();
    assert_eq!(
        request.headers().get("content-type"),
        Some(&HeaderValue::from_str("application/json").unwrap())
    );
}

#[test]
fn test_set_headers_as_str_tuple() {
    let headers = vec![("Content-Type", "application/json")];
    let request = DeboaRequest::get(test_url()).unwrap().headers(headers).build().unwrap();
    assert_eq!(
        request.headers().get("content-type"),
        Some(&HeaderValue::from_str("application/json").unwrap())
    );
}

#[test]
fn test_set_headers_as_string_tuple() {
    let headers = vec![("Content-Type".to_owned(), "application/json".to_owned())];
    let request = DeboaRequest::get(test_url()).unwrap().headers(headers).build().unwrap();
    assert_eq!(
        request.headers().get("content-type"),
        Some(&HeaderValue::from_str("application/json").unwrap())
    );
}

#[test]
fn test_set_headers_replaces_host() {
    let headers = vec![("X-One", "1"), ("X-One", "2")];
    let request = DeboaRequest::get(test_url()).unwrap().headers(headers).build().unwrap();
    assert_eq!(request.headers().get("host"), None);
    assert_eq!(request.headers().get("x-one"), Some(&HeaderValue::from_static("2")));
    assert_eq!(request.headers().len(), 1);
}

#[test]
fn test_set_basic_auth() {
    let url = test_url();
    let request = DeboaRequest::get(url).unwrap().basic_auth("username", "password").unwrap().build().unwrap();
    assert_eq!(
        request.headers().get("authorization"),
        Some(&HeaderValue::from_str("Basic dXNlcm5hbWU6cGFzc3dvcmQ=").unwrap())
    );
}

#[test]
fn test_basic_auth_padding() {
    let request = DeboaRequest::get(test_url()).unwrap().basic_auth("a", "").unwrap().build().unwrap();
    assert_eq!(request.headers().get("authorization"), Some(&HeaderValue::from_static("Basic YTo=")));
    let request = DeboaRequest::get(test_url()).unwrap().basic_auth("ab", "c").unwrap().build().unwrap();
    assert_eq!(request.headers().get("authorization"), Some(&HeaderValue::from_static("Basic YWI6Yw==")));
}

#[test]
fn test_set_bearer_auth() {
    let url = test_url();
    let request = DeboaRequest::get(url).unwrap().bearer_auth("token").unwrap().build().unwrap();
    assert_eq!(
        request.headers().get("authorization"),
        Some(&HeaderValue::from_str("Bearer token").unwrap())
    );
}

#[test]
fn test_bearer_auth_invalid_token() {
    let result = DeboaRequest::get(test_url()).unwrap().bearer_auth("to\nken");
    assert!(result.is_err());
}

#[test]
fn test_add_header() {
    let url = test_url();
    let request = DeboaRequest::get(url)
        .unwrap()
        .header(HeaderName::content_type(), "application/json")
        .unwrap()
        .build()
        .unwrap();
    assert_eq!(
        request.headers().get("content-type"),
        Some(&HeaderValue::from_str("application/json").unwrap())
    );
}

#[test]
fn test_header_invalid_value() {
    let result = DeboaRequest::get(test_url()).unwrap().header(HeaderName::accept(), "a\u{7f}b");
    match result {
        Err(deboa::errors::DeboaError::Header { message }) => assert_eq!(message, "failed to parse header value"),
        _ => panic!("expected a header error"),
    }
}

#[test]
fn test_put() {
    let api = DeboaRequest::put(test_url()).unwrap().build().unwrap();
    assert_eq!(*api.method(), Method::PUT);
}

#[test]
fn test_patch() {
    let api = DeboaRequest::patch(test_url()).unwrap().build().unwrap();
    assert_eq!(*api.method(), Method::PATCH);
}

#[test]
fn test_query() {
    let api = DeboaRequest::query(test_url()).unwrap().build().unwrap();
    assert_eq!(*api.method(), Method::QUERY);
}

#[test]
fn test_delete() {
    let api = DeboaRequest::delete(test_url()).unwrap().build().unwrap();
    assert_eq!(*api.method(), Method::DELETE);
}

#[test]
fn test_version() {
    let api = DeboaRequest::delete(test_url()).unwrap().build().unwrap();
    assert_eq!(api.version(), Version::HTTP_2);
}

#[test]
fn test_set_version() {
    let api = DeboaRequest::delete(test_url()).unwrap().version(Version::HTTP_11).build().unwrap();
    assert_eq!(api.version(), Version::HTTP_11);
}

#[test]
fn test_set_text() {
    let api = DeboaRequest::delete(test_url()).unwrap().text("Some text").build().unwrap();
    assert_eq!(api.body(), b"Some text".to_vec());
}

#[test]
fn test_quick_get() {
    let api = get(test_url()).unwrap().build().unwrap();
    assert_eq!(*api.method(), Method::GET);
}

#[test]
fn test_quick_post() {
    let api = post(test_url()).unwrap().build().unwrap();
    assert_eq!(*api.method(), Method::POST);
}

#[test]
fn test_quick_put() {
    let api = put(test_url()).unwrap().build().unwrap();
    assert_eq!(*api.method(), Method::PUT);
}

#[test]
fn test_quick_patch() {
    let api = patch(test_url()).unwrap().build().unwrap();
    assert_eq!(*api.method(), Method::PATCH);
}

#[test]
fn test_quick_query() {
    let api = query(test_url()).unwrap().build().unwrap();
    assert_eq!(*api.method(), Method::QUERY);
}

#[test]
fn test_quick_delete() {
    let api = delete(test_url()).unwrap().build().unwrap();
    assert_eq!(*api.method(), Method::DELETE);
}

#[test]
fn test_started_request_host_header() {
    let api = get("http://example.com:8080/a?b=c").unwrap().build().unwrap();
    assert_eq!(api.headers().get("host"), Some(&HeaderValue::from_static("example.com")));
    assert_eq!(api.uri().as_str(), "http://example.com:8080/a?b=c");
    assert_eq!(api.uri().authority(), Some("example.com:8080"));
}

#[test]
fn test_request_body() {
    let api = delete(test_url()).unwrap().body("Text".into()).build().unwrap();
    assert_eq!(api.body(), b"Text".to_vec());
}

#[test]
fn test_request_body_bytes() {
    let api = delete(test_url()).unwrap().bytes(b"Text").build().unwrap();
    assert_eq!(api.body(), b"Text".to_vec());
}

#[test]
fn test_request_form() {
    let form = EncodedForm::builder().field("name", "deboa").field("version", "0.0.1");
    let api = post(test_url()).unwrap().form(form.into(), &vec![]).unwrap().build().unwrap();
    assert_eq!(
        api.headers().get("content-type"),
        Some(&HeaderValue::from_static("application/x-www-form-urlencoded"))
    );
    assert_eq!(api.body(), b"name=deboa&version=0.0.1".to_vec());
}

#[test]
fn test_request_multipart_form_unreadable_file() {
    let form = deboa::form::MultiPartForm::builder().file("doc", "/no/such/file.txt");
    let result = post(test_url()).unwrap().form(form.into(), &vec![FieldSource::File(None)]);
    match result {
        Err(deboa::errors::DeboaError::Io(deboa::errors::IoError::File { message })) => {
            assert_eq!(message, "Failed to read file")
        }
        _ => panic!("expected a file error"),
    }
}

#[test]
fn test_request_from_parts() {
    let mut headers = http::HeaderMap::new();
    headers.insert(http::header::CONTENT_TYPE, HeaderValue::from_static("application/json"));
    let parts = RequestParts {
        method: Method::POST,
        version: Version::HTTP_11,
        uri: Uri::parse(test_url().as_str()).unwrap(),
        headers,
    };
    let request = DeboaRequest::from_parts(parts, "Some text".into()).unwrap();
    assert_eq!(request.method(), &Method::POST);
    let (my_parts, my_body) = request.into_parts();
    assert_eq!(my_parts.method, Method::POST);
    assert_eq!(my_body, b"Some text".to_vec());
}

#[test]
fn test_url_parse_error_from_start() {
    match DeboaRequest::get("invalid_url") {
        Err(deboa::errors::DeboaError::UrlParse { .. }) => {}
        _ => panic!("expected a URL error"),
    }
}

#[test]
fn test_start_from_uri() {
    let uri = Uri::parse("https://localhost:8000/x").unwrap();
    let request = DeboaRequest::start(uri, Method::PUT).unwrap().build().unwrap();
    assert_eq!(request.method(), &Method::PUT);
    assert_eq!(request.headers().get("host"), Some(&HeaderValue::from_static("localhost")));
    let relative = Uri::parse("/relative").unwrap();
    match DeboaRequest::start(relative, Method::GET) {
        Err(deboa::errors::DeboaError::Request(deboa::errors::RequestError::Prepare { message })) => {
            assert_eq!(message, "the URI has no host")
        }
        _ => panic!("expected a prepare error"),
    }
}

#[test]
fn test_assemble() {
    let uri = Uri::parse("https://localhost:8000").unwrap();
    match DeboaRequest::assemble(None, uri.clone(), http::HeaderMap::new(), vec![]) {
        Err(deboa::errors::DeboaError::Request(deboa::errors::RequestError::Parse { message })) => {
            assert_eq!(message, "Invalid method")
        }
        _ => panic!("expected a parse error"),
    }
    let request = DeboaRequest::assemble(Some(Method::GET), uri.clone(), http::HeaderMap::new(), b"x".to_vec()).unwrap();
    assert_eq!(request.headers().get("host"), Some(&HeaderValue::from_static("localhost:8000")));
    assert_eq!(request.version(), Version::HTTP_2);
    let mut headers = http::HeaderMap::new();
    headers.insert(http::header::HOST, HeaderValue::from_static("other"));
    let request = DeboaRequest::assemble(Some(Method::GET), uri, headers, vec![]).unwrap();
    assert_eq!(request.headers().get("host"), Some(&HeaderValue::from_static("other")));
}

#[test]
fn test_from_str_invalid_header_name() {
    match DeboaRequest::from_str("GET https://localhost:8000\nBad Name: x") {
        Err(deboa::errors::DeboaError::Request(deboa::errors::RequestError::Parse { message })) => {
            assert_eq!(message, "Invalid header name")
        }
        _ => panic!("expected a parse error"),
    }
}

#[test]
fn test_body_as() {
    let request = DeboaRequest::post(test_url())
        .unwrap()
        .body_as("application/json", b"{\"a\":1}".to_vec())
        .unwrap()
        .build()
        .unwrap();
    assert_eq!(request.headers().get("content-type"), Some(&HeaderValue::from_static("application/json")));
    assert_eq!(request.headers().get("accept"), Some(&HeaderValue::from_static("application/json")));
    assert_eq!(request.body(), b"{\"a\":1}".to_vec());
    assert!(DeboaRequest::post(test_url()).unwrap().body_as("bad\ntype", vec![]).is_err());
}

#[test]
fn test_from_str_long_body() {
    let mut text = String::from("POST https://localhost:8000\nContent-Type: text/plain\n\n");
    for _ in 0..7000 {
        text.push_str("x\n");
    }
    let request = DeboaRequest::from_str(&text).unwrap();
    assert_eq!(request.body().len(), 7000);
}

#[test]
fn test_headers_repeated_names() {
    let headers: Vec<(&str, &str)> = (0..7000).map(|_| ("X-Same", "1")).collect();
    let request = DeboaRequest::get(test_url()).unwrap().headers(headers).build().unwrap();
    assert_eq!(request.headers().len(), 1);
}
