//! Response construction and byte-exact serialization.

use selfish::handler::select_private_key;
use selfish::request::HttpRequest;
use selfish::response::HttpResponse;

fn get_request() -> HttpRequest {
    HttpRequest::new(b"GET /page.html HTTP/1.1\r\n\r\n").unwrap()
}

fn head_request() -> HttpRequest {
    HttpRequest::new(b"HEAD /page.html HTTP/1.1\r\n\r\n").unwrap()
}

#[test]
fn get_response_carries_body() {
    let req = get_request();
    let r = HttpResponse::new(&req, b"/srv/page.html", false, Some(b"<p>hi</p>".to_vec()), 200);
    assert_eq!(r.status, 200);
    assert_eq!(r.reason, "OK");
    assert_eq!(r.version, b"HTTP/1.1".to_vec());
    assert_eq!(r.body, Some(b"<p>hi</p>".to_vec()));
    assert_eq!(
        r.headers,
        vec![(b"Content-Type".to_vec(), b"text/html; charset=utf-8".to_vec())]
    );
}

#[test]
fn head_response_has_no_body() {
    let req = head_request();
    let r = HttpResponse::new(&req, b"/srv/page.html", false, Some(b"<p>hi</p>".to_vec()), 200);
    assert_eq!(r.status, 200);
    assert!(r.body.is_none());
}

#[test]
fn serialization_is_byte_exact() {
    let req = get_request();
    let r = HttpResponse::new(&req, b"/srv/page.html", false, Some(b"<p>hi</p>".to_vec()), 200);
    assert_eq!(
        r.to_vectored_bytes(),
        b"HTTP/1.1 200 OK\r\nContent-Type: text/html; charset=utf-8\r\n\r\n<p>hi</p>".to_vec()
    );
}

#[test]
fn not_found_serves_fixed_page() {
    let req = get_request();
    let r = HttpResponse::not_found(&req);
    assert_eq!(r.status, 404);
    assert_eq!(r.reason, "Not Found");
    assert_eq!(
        r.body,
        Some(b"<html><body><h1>404: Not Found</h1></body></html>".to_vec())
    );
    assert_eq!(
        r.headers,
        vec![(b"Content-Type".to_vec(), b"text/html; charset=utf-8".to_vec())]
    );
}

#[test]
fn with_header_appends_new_key() {
    let req = get_request();
    let r = HttpResponse::not_found(&req).with_header("Server", "test server");
    assert_eq!(r.headers.len(), 2);
    assert_eq!(r.headers[1], (b"Server".to_vec(), b"test server".to_vec()));
}

#[test]
fn with_header_replaces_existing_key() {
    let req = get_request();
    let r = HttpResponse::not_found(&req)
        .with_header("Server", "one")
        .with_header("Server", "two");
    assert_eq!(r.headers.len(), 2);
    assert_eq!(r.headers[1], (b"Server".to_vec(), b"two".to_vec()));
}

#[test]
fn get_header_string_omits_body() {
    let req = get_request();
    let r = HttpResponse::new(&req, b"/srv/page.html", false, Some(b"<p>hi</p>".to_vec()), 200);
    assert_eq!(
        r.get_header_string(),
        "HTTP/1.1 200 OK\r\nContent-Type: text/html; charset=utf-8\r\n\r\n"
    );
}

#[test]
fn status_string_names_status_and_uri() {
    let req = get_request();
    let r = HttpResponse::not_found(&req);
    let s = r.status_string();
    assert!(s.starts_with('['));
    assert!(s.ends_with("| 404 Not Found /page.html]"));
}

#[test]
fn multi_digit_statuses_render_in_decimal() {
    let req = get_request();
    let r = HttpResponse::new(&req, b"/srv/page.html", false, None, 511);
    assert!(r
        .to_vectored_bytes()
        .starts_with(b"HTTP/1.1 511 Network Authentication Required\r\n"));
}

#[test]
fn log_line_renders_epoch_timestamp() {
    let mut r = HttpResponse::not_found(&get_request());
    r.timestamp = 0;
    let s = r.status_string();
    assert!(s.contains("Jan 1970 00:00:00 +0000"), "log line was {s}");
}

#[test]
fn select_private_key_prefers_pkcs8() {
    let pkcs8 = vec![b"p1".to_vec(), b"p2".to_vec()];
    let rsa = vec![b"r1".to_vec()];
    assert_eq!(select_private_key(&pkcs8, &rsa), Some(b"p1".to_vec()));
    assert_eq!(select_private_key(&Vec::new(), &rsa), Some(b"r1".to_vec()));
    assert_eq!(select_private_key(&Vec::new(), &Vec::new()), None);
}
