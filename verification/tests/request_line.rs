//! The request-line recognizer agrees with the regular expression it implements.
use deboa::method::Method;
use deboa::request_line::find_request_line;
use regex::Regex;

fn by_regex(line: &str) -> Option<(String, String)> {
    let re = Regex::new(r"(GET|POST|QUERY|PUT|DELETE|PATCH|HEAD|OPTIONS)\s+(https?://[^\s]+)").unwrap();
    re.captures(line).map(|c| (c[1].to_string(), c[2].to_string()))
}

fn by_library(line: &str) -> Option<(String, String)> {
    let chars: Vec<char> = line.chars().collect();
    find_request_line(&chars).map(|(m, u)| (m.as_str(), u.into_iter().collect()))
}

#[test]
fn test_request_line_agrees_with_regex() {
    let lines = [
        "GET https://localhost:8000",
        "  POST   http://example.com/a?b=c  trailing",
        "PUThttp://x",
        "PUT\thttps://x/y",
        "xxGET https://a GET http://b",
        "GET http:/broken POST https://ok",
        "HEAD https:// ",
        "OPTIONS https://x",
        "DELETE\u{3000}https://wide.space/",
        "PATCH https://é.example/ü",
        "QUERY  ftp://nope",
        "get https://lower",
        "GETT https://x",
        "POSTGET https://x",
        "GE T https://x",
        "",
        "Content-Type: application/json",
        "PUT http://a\u{85}b",
    ];
    for line in lines {
        assert_eq!(by_library(line), by_regex(line), "line {:?}", line);
    }
}

#[test]
fn test_request_line_method() {
    let chars: Vec<char> = "  PATCH https://x/1".chars().collect();
    let (m, u) = find_request_line(&chars).unwrap();
    assert_eq!(m, Method::PATCH);
    assert_eq!(u.into_iter().collect::<String>(), "https://x/1");
}
