//! Media-type selection and reason phrases.

use selfish::content_type::{parse_content_type, ContentType};
use selfish::statuses::reason_phrase;

#[test]
fn directories_are_html_with_charset() {
    assert_eq!(parse_content_type(b"/srv/a", true), "text/html; charset=utf-8");
}

#[test]
fn html_extensions_carry_charset() {
    assert_eq!(parse_content_type(b"/srv/p.html", false), "text/html; charset=utf-8");
    assert_eq!(parse_content_type(b"x.htm", false), "text/html; charset=utf-8");
}

#[test]
fn known_extensions_map() {
    assert_eq!(parse_content_type(b"a.js", false), "text/javascript");
    assert_eq!(parse_content_type(b"a.css", false), "text/css");
    assert_eq!(parse_content_type(b"a.ico", false), "image/x-icon");
    assert_eq!(parse_content_type(b"a.cur", false), "image/x-icon");
    assert_eq!(parse_content_type(b"a.jpg", false), "image/jpeg");
    assert_eq!(parse_content_type(b"a.jpeg", false), "image/jpeg");
    assert_eq!(parse_content_type(b"a.png", false), "image/png");
    assert_eq!(parse_content_type(b"a.svg", false), "image/svg+xml");
    assert_eq!(parse_content_type(b"a.json", false), "application/json");
}

#[test]
fn unknown_extension_is_octet_stream() {
    assert_eq!(parse_content_type(b"a.weird", false), "application/octet-stream");
}

#[test]
fn no_extension_is_plain_text() {
    assert_eq!(parse_content_type(b"README", false), "text/plain");
    assert_eq!(parse_content_type(b"/dir.d/file", false), "text/plain");
}

#[test]
fn hidden_file_has_no_extension() {
    assert_eq!(parse_content_type(b"/srv/.gitignore", false), "text/plain");
}

#[test]
fn parse_from_filename_matches_to_string() {
    let ct = ContentType::parse_from_filename(b"page.html", false);
    assert_eq!(ct.to_string(), "text/html; charset=utf-8");
    let ct = ContentType::parse_from_filename(b"data.json", false);
    assert_eq!(ct.to_string(), "application/json");
}

#[test]
fn reason_phrases_cover_standard_codes() {
    assert_eq!(reason_phrase(200), Some("OK"));
    assert_eq!(reason_phrase(404), Some("Not Found"));
    assert_eq!(reason_phrase(405), Some("Method Not Allowed"));
    assert_eq!(reason_phrase(500), Some("Internal Server Error"));
    assert_eq!(reason_phrase(100), Some("Continue"));
    assert_eq!(reason_phrase(511), Some("Network Authentication Required"));
}

#[test]
fn unknown_status_has_no_phrase() {
    assert_eq!(reason_phrase(299), None);
    assert_eq!(reason_phrase(600), None);
}
