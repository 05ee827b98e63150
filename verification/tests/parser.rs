//! Request parsing and reserialization.

use selfish::request::{HttpError, HttpRequest};

fn parse(raw: &[u8]) -> HttpRequest {
    HttpRequest::new(raw).expect("request should parse")
}

#[test]
fn parses_request_line() {
    let r = parse(b"GET /index.html HTTP/1.1\r\n\r\n");
    assert_eq!(r.method, b"GET".to_vec());
    assert_eq!(r.uri, b"/index.html".to_vec());
    assert_eq!(r.version, b"HTTP/1.1".to_vec());
    assert!(r.body.is_none());
}

#[test]
fn parses_headers_trimmed() {
    let r = parse(b"GET / HTTP/1.1\r\nHost:  example.org \r\nAccept: text/html\r\n\r\n");
    assert_eq!(
        r.headers,
        vec![
            (b"Host".to_vec(), b"example.org".to_vec()),
            (b"Accept".to_vec(), b"text/html".to_vec()),
        ]
    );
}

#[test]
fn skips_lines_without_exactly_one_colon() {
    let r = parse(b"GET / HTTP/1.1\r\nno colon here\r\na:b:c\r\nGood: yes\r\n\r\n");
    assert_eq!(r.headers, vec![(b"Good".to_vec(), b"yes".to_vec())]);
}

#[test]
fn repeated_header_keeps_last_value() {
    let r = parse(b"GET / HTTP/1.1\r\nX: 1\r\nX: 2\r\n\r\n");
    assert_eq!(r.headers, vec![(b"X".to_vec(), b"2".to_vec())]);
}

#[test]
fn short_request_line_is_malformed() {
    assert_eq!(
        HttpRequest::new(b"GET /\r\n\r\n").unwrap_err(),
        HttpError::MalformedRequest
    );
    assert_eq!(
        HttpRequest::new(b"").unwrap_err(),
        HttpError::MalformedRequest
    );
}

#[test]
fn trailing_buffer_zeros_are_ignored() {
    let mut raw = b"HEAD /x HTTP/1.0\r\n\r\n".to_vec();
    raw.extend(std::iter::repeat(0u8).take(64));
    let r = parse(&raw);
    assert_eq!(r.method, b"HEAD".to_vec());
    assert_eq!(r.uri, b"/x".to_vec());
    assert!(r.headers.is_empty());
}

#[test]
fn echo_round_trip_preserves_request_line() {
    let raw = b"GET /a/b.txt HTTP/1.1\r\nHost: h\r\n\r\n";
    let r = parse(raw);
    let s = r.to_string();
    assert!(s.starts_with("GET /a/b.txt HTTP/1.1\r\n"));
    assert!(s.contains("Host: h\r\n"));
    let again = parse(s.as_bytes());
    assert_eq!(again.method, r.method);
    assert_eq!(again.uri, r.uri);
    assert_eq!(again.version, r.version);
}

#[test]
fn to_bytes_serializes_exactly() {
    let r = parse(b"GET / HTTP/1.1\r\nA: b\r\n\r\n");
    assert_eq!(r.to_bytes(), b"GET / HTTP/1.1\r\nA: b\r\n".to_vec());
}

#[test]
fn status_string_names_method_and_uri() {
    let r = parse(b"GET /p HTTP/1.1\r\n\r\n");
    let s = r.status_string();
    assert!(s.starts_with('['));
    assert!(s.ends_with("| GET /p]"));
}
