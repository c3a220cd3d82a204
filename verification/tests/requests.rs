use toy_http::error::HttpError;
use toy_http::request::{Request, UriParam};

#[test]
fn full_request_parses() {
    let raw = "GET /api/42 HTTP/1.1\r\nHost: example\r\nX-Tag: y\r\n\r\nbodytext";
    let req = Request::new(raw).expect("well-formed request");
    assert_eq!(req.uri, "/api/42");
    assert_eq!(req.get_header("Host"), "example");
    assert_eq!(req.get_header("X-Tag"), "y");
    assert_eq!(req.body, "bodytext");
}

#[test]
fn post_request_parses() {
    let raw = "POST /submit HTTP/1.1\r\n\r\npayload";
    let req = Request::new(raw).expect("well-formed request");
    assert_eq!(req.uri, "/submit");
    assert_eq!(req.body, "payload");
}

#[test]
fn absent_header_defaults_to_empty() {
    let raw = "GET / HTTP/1.1\r\n\r\n";
    let req = Request::new(raw).expect("well-formed request");
    assert_eq!(req.get_header("Host"), "");
    assert_eq!(req.body, "");
}

#[test]
fn unknown_method_is_bad_request() {
    let raw = "FOO / HTTP/1.1\r\n\r\n";
    assert_eq!(Request::new(raw).err().unwrap(), HttpError::BadRequest);
}

#[test]
fn missing_version_is_bad_request() {
    assert_eq!(
        Request::new("GET /\r\n\r\n").err().unwrap(),
        HttpError::BadRequest
    );
    assert_eq!(
        Request::new("GET / HTTP/1.0\r\n\r\n").err().unwrap(),
        HttpError::BadRequest
    );
}

#[test]
fn truncated_request_is_bad_request() {
    assert_eq!(Request::new("").err().unwrap(), HttpError::BadRequest);
    assert_eq!(
        Request::new("GET / HTTP/1.1").err().unwrap(),
        HttpError::BadRequest
    );
    assert_eq!(
        Request::new("GET / HTTP/1.1\r\n").err().unwrap(),
        HttpError::BadRequest
    );
    assert_eq!(
        Request::new("GET / HTTP/1.1\r\nHost: a\r\n").err().unwrap(),
        HttpError::BadRequest
    );
}

#[test]
fn header_without_colon_is_bad_request() {
    let raw = "GET / HTTP/1.1\r\nnocolon\r\n\r\n";
    assert_eq!(Request::new(raw).err().unwrap(), HttpError::BadRequest);
}

#[test]
fn header_space_after_colon_is_optional() {
    let raw = "GET / HTTP/1.1\r\nA:b\r\nB: c\r\n\r\n";
    let req = Request::new(raw).expect("well-formed request");
    assert_eq!(req.get_header("A"), "b");
    assert_eq!(req.get_header("B"), "c");
}

#[test]
fn header_value_may_contain_colons() {
    let raw = "GET / HTTP/1.1\r\nReferer: http://a/b\r\n\r\n";
    let req = Request::new(raw).expect("well-formed request");
    assert_eq!(req.get_header("Referer"), "http://a/b");
}

#[test]
fn body_keeps_line_breaks() {
    let raw = "POST /p HTTP/1.1\r\n\r\nline1\r\nline2";
    let req = Request::new(raw).expect("well-formed request");
    assert_eq!(req.body, "line1\r\nline2");
}

#[test]
fn uri_param_parses_strings() {
    let v: String = UriParam::parse(&"hello".to_string());
    assert_eq!(v, "hello");
}

#[test]
fn uri_param_parses_signed_integers() {
    let a: i32 = UriParam::parse(&"123".to_string());
    assert_eq!(a, 123);
    let b: i32 = UriParam::parse(&"-42".to_string());
    assert_eq!(b, -42);
    let c: i32 = UriParam::parse(&"+7".to_string());
    assert_eq!(c, 7);
    let d: i32 = UriParam::parse(&"0".to_string());
    assert_eq!(d, 0);
}

#[test]
fn uri_param_parses_extreme_integers() {
    let max: i32 = UriParam::parse(&"2147483647".to_string());
    assert_eq!(max, 2147483647);
    let min: i32 = UriParam::parse(&"-2147483648".to_string());
    assert_eq!(min, -2147483648);
    let zeros: i32 = UriParam::parse(&"000123".to_string());
    assert_eq!(zeros, 123);
}
