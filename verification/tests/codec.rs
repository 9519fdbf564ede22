use server::request::{ParseError, Request};
use server::response::Response;

fn parse(buf: &[u8]) -> Request {
    Request::new(buf).expect("buffer should decode")
}

#[test]
fn request_line_with_query_decodes() {
    let req = parse(b"GET /path?x=1 HTTP/1.1\r\n\r\n");
    assert_eq!(req.method, b"GET".to_vec());
    assert_eq!(req.path, b"/path".to_vec());
    assert_eq!(req.query_get(b"x"), Some(&b"1".to_vec()));
    assert_eq!(req.query_get(b"missing"), None);
    assert_eq!(req.content, Vec::<u8>::new());
}

#[test]
fn headers_and_body_decode() {
    let req = parse(
        b"POST /todos HTTP/1.1\r\nContent-Type: application/json\r\nHost: localhost\r\n\r\n{\"content\":\"x\"}",
    );
    assert_eq!(req.method, b"POST".to_vec());
    assert_eq!(req.path, b"/todos".to_vec());
    assert_eq!(
        req.header_get(b"Content-Type"),
        Some(&b"application/json".to_vec())
    );
    assert_eq!(req.header_get(b"Host"), Some(&b"localhost".to_vec()));
    assert_eq!(req.content, b"{\"content\":\"x\"}".to_vec());
}

#[test]
fn duplicate_query_keys_last_write_wins() {
    let req = parse(b"GET /p?a=1&a=2&b=3 HTTP/1.1\r\n\r\n");
    assert_eq!(req.query_get(b"a"), Some(&b"2".to_vec()));
    assert_eq!(req.query_get(b"b"), Some(&b"3".to_vec()));
}

#[test]
fn query_string_is_everything_after_the_first_question_mark() {
    let req = parse(b"GET /p?a=b?c HTTP/1.1\r\n\r\n");
    assert_eq!(req.path, b"/p".to_vec());
    assert_eq!(req.query_get(b"a"), Some(&b"b?c".to_vec()));
}

#[test]
fn query_pair_without_equals_is_dropped() {
    let req = parse(b"GET /p?flag&a=1 HTTP/1.1\r\n\r\n");
    assert_eq!(req.query_get(b"flag"), None);
    assert_eq!(req.query_get(b"a"), Some(&b"1".to_vec()));
}

#[test]
fn missing_separator_is_an_error_not_a_panic() {
    assert!(matches!(
        Request::new(b"GET / HTTP/1.1\r\n"),
        Err(ParseError::MissingSeparator)
    ));
}

#[test]
fn empty_buffer_is_an_error() {
    assert!(matches!(Request::new(b""), Err(ParseError::MissingMethod)));
    assert!(matches!(
        Request::new(b"\r\n\r\n"),
        Err(ParseError::MissingMethod)
    ));
}

#[test]
fn request_line_without_path_is_an_error() {
    assert!(matches!(
        Request::new(b"GET\r\n\r\n"),
        Err(ParseError::MissingPath)
    ));
}

#[test]
fn body_spanning_lines_is_joined() {
    let req = parse(b"POST / HTTP/1.1\r\n\r\nline one\r\nline two");
    assert_eq!(req.content, b"line one\r\nline two".to_vec());
}

fn status_line_of(wire: &[u8]) -> Vec<u8> {
    assert_eq!(&wire[..9], b"HTTP/1.1 ");
    let rest = &wire[9..];
    let end = rest.iter().position(|&b| b == b'\r').expect("status line ends");
    rest[..end].to_vec()
}

#[test]
fn status_line_round_trips_known_codes() {
    for (code, phrase) in [
        (200u16, "200 OK"),
        (201, "201 Created"),
        (204, "204 No Content"),
        (400, "400 Bad Request"),
        (404, "404 Not Found"),
        (500, "500 Internal Server Error"),
        (505, "505 HTTP Version Not Supported"),
    ] {
        let resp = Response::json(code, b"{}", None);
        let wire = Response::resolve(&resp);
        assert_eq!(status_line_of(&wire), phrase.as_bytes().to_vec());
    }
}

#[test]
fn status_line_round_trips_unknown_codes() {
    let resp = Response::json(999, b"", None);
    let wire = Response::resolve(&resp);
    assert_eq!(status_line_of(&wire), b"999 Unknown".to_vec());
    let resp = Response::json(7, b"", None);
    let wire = Response::resolve(&resp);
    assert_eq!(status_line_of(&wire), b"7 Unknown".to_vec());
}

#[test]
fn content_length_header_is_exact_byte_length() {
    let resp = Response::json(200, b"hello", None);
    assert_eq!(
        resp.headers[1],
        (b"Content-Length".to_vec(), b"5".to_vec())
    );
    let wire = Response::resolve(&resp);
    let text = String::from_utf8(wire).unwrap();
    assert!(text.contains("Content-Length: 5\r\n"));

    let empty = Response::json(200, b"", None);
    assert_eq!(empty.headers[1], (b"Content-Length".to_vec(), b"0".to_vec()));
}

#[test]
fn injected_headers_come_before_caller_headers() {
    let extra = vec![(b"X-Trace".to_vec(), b"abc".to_vec())];
    let resp = Response::json(200, b"{}", Some(extra));
    assert_eq!(resp.headers[0], (b"Content-Type".to_vec(), b"application/json".to_vec()));
    assert_eq!(resp.headers[1], (b"Content-Length".to_vec(), b"2".to_vec()));
    assert_eq!(resp.headers[2], (b"X-Trace".to_vec(), b"abc".to_vec()));
    let wire = Response::resolve(&resp);
    assert_eq!(
        wire,
        b"HTTP/1.1 200 OK\r\nContent-Type: application/json\r\nContent-Length: 2\r\nX-Trace: abc\r\n\r\n{}".to_vec()
    );
}
