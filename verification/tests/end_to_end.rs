//! The full pipeline on in-memory bytes: parse, route, respond,
//! serialize.

use selfish::config::HttpdConfig;
use selfish::handler::{candidate_path, respond};
use selfish::request::HttpRequest;
use selfish::routing::{FsEntry, Router};

fn test_config() -> HttpdConfig {
    HttpdConfig::new(
        String::from("127.0.0.1"),
        8080,
        vec![b"GET".to_vec(), b"HEAD".to_vec()],
        Some(2),
        None,
        None,
    )
}

fn served_router() -> Router {
    let entries = vec![entry(&["index.html"], false)];
    Router::default_from_directory(b"/srv", &entries)
}

fn entry(components: &[&str], is_dir: bool) -> FsEntry {
    FsEntry {
        components: components.iter().map(|c| c.as_bytes().to_vec()).collect(),
        is_dir,
    }
}

/// One request against an in-memory file tree holding only
/// `/srv/index.html` with the given body.
fn serve(raw: &[u8], index_body: &[u8]) -> Vec<u8> {
    let config = test_config();
    let mut router = served_router();
    let request = HttpRequest::new(raw).unwrap();
    let mut path = router.route_to(&request.uri);
    if path.is_none() {
        let candidate = candidate_path(&request.uri);
        let exists = candidate == b"index.html".to_vec();
        path = router.route_to_new(&request.uri, &candidate, exists);
    }
    let resolved = path.is_some();
    let is_get = request.method == b"GET".to_vec();
    let content = if resolved && is_get {
        Some(index_body.to_vec())
    } else {
        None
    };
    let path_bytes = path.unwrap_or_else(|| candidate_path(&request.uri));
    let response = respond(
        &config,
        &request,
        &path_bytes,
        false,
        resolved,
        content,
        "selfish test",
    );
    response.to_vectored_bytes()
}

#[test]
fn get_root_serves_index() {
    let out = serve(b"GET / HTTP/1.1\r\n\r\n", b"<p>hi</p>");
    let text = String::from_utf8(out).unwrap();
    assert!(text.starts_with("HTTP/1.1 200 OK\r\n"));
    assert!(text.contains("Content-Type: text/html; charset=utf-8\r\n"));
    assert!(text.contains("Server: selfish test\r\n"));
    assert!(text.ends_with("\r\n\r\n<p>hi</p>"));
}

#[test]
fn head_root_has_empty_body() {
    let out = serve(b"HEAD / HTTP/1.1\r\n\r\n", b"<p>hi</p>");
    let text = String::from_utf8(out).unwrap();
    assert!(text.starts_with("HTTP/1.1 200 OK\r\n"));
    assert!(text.ends_with("\r\n\r\n"));
}

#[test]
fn post_root_is_method_not_allowed() {
    let out = serve(b"POST / HTTP/1.1\r\n\r\n", b"<p>hi</p>");
    let text = String::from_utf8(out).unwrap();
    assert!(text.starts_with("HTTP/1.1 405 Method Not Allowed\r\n"));
}

#[test]
fn disallowed_method_yields_405_with_resolved_path() {
    let config = test_config();
    let request = HttpRequest::new(b"DELETE / HTTP/1.1\r\n\r\n").unwrap();
    let r = respond(&config, &request, b"/srv/index.html", false, true, None, "s");
    assert_eq!(r.status, 405);
}

#[test]
fn disallowed_method_yields_405_without_resolved_path() {
    let config = test_config();
    let request = HttpRequest::new(b"DELETE /none HTTP/1.1\r\n\r\n").unwrap();
    let r = respond(&config, &request, b"none", false, false, None, "s");
    assert_eq!(r.status, 405);
}

#[test]
fn unrouted_uri_yields_404_with_fixed_body() {
    let out = serve(b"GET /missing.txt HTTP/1.1\r\n\r\n", b"<p>hi</p>");
    let text = String::from_utf8(out).unwrap();
    assert!(text.starts_with("HTTP/1.1 404 Not Found\r\n"));
    assert!(text.ends_with("\r\n\r\n<html><body><h1>404: Not Found</h1></body></html>"));
}
