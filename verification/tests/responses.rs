use toy_http::error::{HttpError, status_code};
use toy_http::response::{Response, error_response, http_message};

#[test]
fn default_response_serializes_in_fixed_order() {
    let out = Response::new("Hello world").dump();
    assert_eq!(
        out,
        "HTTP/1.1 200 OK\r\nContent-Type: text/html; charset=UTF-8\r\n\r\nHello world"
    );
}

#[test]
fn status_changes_status_line_only() {
    let out = Response::new("gone").status(404).dump();
    assert_eq!(
        out,
        "HTTP/1.1 404 Not Found\r\nContent-Type: text/html; charset=UTF-8\r\n\r\ngone"
    );
}

#[test]
fn headers_serialize_in_insertion_order() {
    let out = Response::new("x")
        .add_header("A", "1")
        .add_header("B", "2")
        .dump();
    assert_eq!(
        out,
        "HTTP/1.1 200 OK\r\nContent-Type: text/html; charset=UTF-8\r\nA: 1\r\nB: 2\r\n\r\nx"
    );
}

#[test]
fn add_header_replaces_in_place() {
    let out = Response::new("x")
        .add_header("A", "1")
        .add_header("B", "2")
        .add_header("A", "9")
        .dump();
    assert_eq!(
        out,
        "HTTP/1.1 200 OK\r\nContent-Type: text/html; charset=UTF-8\r\nA: 9\r\nB: 2\r\n\r\nx"
    );
}

#[test]
fn content_type_replaces_default() {
    let out = Response::new("{}").content_type("application/json").dump();
    assert_eq!(
        out,
        "HTTP/1.1 200 OK\r\nContent-Type: application/json\r\n\r\n{}"
    );
}

#[test]
fn multi_digit_and_negative_statuses_render() {
    let out = Response::new("x").status(1000).dump();
    assert!(out.starts_with("HTTP/1.1 1000 OK\r\n"));
    let neg = Response::new("x").status(-5).dump();
    assert!(neg.starts_with("HTTP/1.1 -5 OK\r\n"));
}

#[test]
fn reason_phrases_follow_the_table() {
    assert_eq!(http_message(100), "Continue");
    assert_eq!(http_message(200), "OK");
    assert_eq!(http_message(302), "Found");
    assert_eq!(http_message(404), "Not Found");
    assert_eq!(http_message(500), "Internal Server Error");
    assert_eq!(http_message(505), "HTTP Version Not Supported");
    assert_eq!(http_message(999), "OK");
}

#[test]
fn error_statuses_map_to_codes() {
    assert_eq!(status_code(HttpError::BadRequest), 400);
    assert_eq!(status_code(HttpError::ParseError), 400);
    assert_eq!(status_code(HttpError::NotFound), 404);
    assert_eq!(status_code(HttpError::HandlerFailure), 500);
}

#[test]
fn error_responses_carry_status_and_phrase() {
    let r = error_response(HttpError::NotFound);
    assert_eq!(r.status, 404);
    assert_eq!(r.body, "Not Found");
    let out = r.dump();
    assert_eq!(
        out,
        "HTTP/1.1 404 Not Found\r\nContent-Type: text/html; charset=UTF-8\r\n\r\nNot Found"
    );
    let bad = error_response(HttpError::BadRequest);
    assert_eq!(bad.status, 400);
    assert_eq!(bad.body, "Bad Request");
    let fail = error_response(HttpError::HandlerFailure);
    assert_eq!(fail.status, 500);
    assert_eq!(fail.body, "Internal Server Error");
}
