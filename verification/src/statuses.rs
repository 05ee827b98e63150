//! The status-code-to-reason-phrase table for standard HTTP
//! responses.

use vstd::prelude::*;

verus! {

/// The reason phrase of a standard status code, if it is one.
pub open spec fn reason_spec(status: u32) -> Option<Seq<char>> {
    if status == 100 {
        Some("Continue"@)
    } else if status == 101 {
        Some("Switching Protocol"@)
    } else if status == 102 {
        Some("Processing"@)
    } else if status == 103 {
        Some("Early Hints"@)
    } else if status == 200 {
        Some("OK"@)
    } else if status == 201 {
        Some("Created"@)
    } else if status == 202 {
        Some("Accepted"@)
    } else if status == 203 {
        Some("Non-Authoritative Information"@)
    } else if status == 204 {
        Some("No Content"@)
    } else if status == 205 {
        Some("Reset Content"@)
    } else if status == 206 {
        Some("Partial Content"@)
    } else if status == 207 {
        Some("Multi-Status"@)
    } else if status == 208 {
        Some("Already Reported"@)
    } else if status == 226 {
        Some("IM Used"@)
    } else if status == 300 {
        Some("Multiple Choice"@)
    } else if status == 301 {
        Some("Moved Permanently"@)
    } else if status == 302 {
        Some("Found"@)
    } else if status == 303 {
        Some("See Other"@)
    } else if status == 304 {
        Some("Not Modified"@)
    } else if status == 307 {
        Some("Temporary Redirect"@)
    } else if status == 308 {
        Some("Permanent Redirect"@)
    } else if status == 400 {
        Some("Bad Request"@)
    } else if status == 401 {
        Some("Unauthorized"@)
    } else if status == 402 {
        Some("Payment Required"@)
    } else if status == 403 {
        Some("Forbidden"@)
    } else if status == 404 {
        Some("Not Found"@)
    } else if status == 405 {
        Some("Method Not Allowed"@)
    } else if status == 406 {
        Some("Not Acceptable"@)
    } else if status == 407 {
        Some("Proxy Authentication Required"@)
    } else if status == 408 {
        Some("Request Timeout"@)
    } else if status == 409 {
        Some("Conflict"@)
    } else if status == 410 {
        Some("Gone"@)
    } else if status == 411 {
        Some("Length Required"@)
    } else if status == 412 {
        Some("Precondition Failed"@)
    } else if status == 413 {
        Some("Payload Too Large"@)
    } else if status == 414 {
        Some("URI Too Long"@)
    } else if status == 415 {
        Some("Unsupported Media Type"@)
    } else if status == 416 {
        Some("Requested Range Not Satisfiable"@)
    } else if status == 417 {
        Some("Expectation Failed"@)
    } else if status == 418 {
        Some("I'm A Teapot"@)
    } else if status == 421 {
        Some("Misdirected Request"@)
    } else if status == 422 {
        Some("Unprocessable Entity"@)
    } else if status == 423 {
        Some("Locked"@)
    } else if status == 424 {
        Some("Failed Dependency"@)
    } else if status == 425 {
        Some("Too Early"@)
    } else if status == 426 {
        Some("Upgrade Required"@)
    } else if status == 428 {
        Some("Precondition Required"@)
    } else if status == 429 {
        Some("Too Many Requests"@)
    } else if status == 431 {
        Some("Request Header Fields Too Large"@)
    } else if status == 451 {
        Some("Unavailable For Legal Reasons"@)
    } else if status == 500 {
        Some("Internal Server Error"@)
    } else if status == 501 {
        Some("Not Implemented"@)
    } else if status == 502 {
        Some("Bad Gateway"@)
    } else if status == 503 {
        Some("Service Unavailable"@)
    } else if status == 504 {
        Some("Gateway Timeout"@)
    } else if status == 506 {
        Some("Variant Also Negotiates"@)
    } else if status == 507 {
        Some("Insufficient Storage"@)
    } else if status == 508 {
        Some("Loop Detected"@)
    } else if status == 510 {
        Some("Not Extended"@)
    } else if status == 511 {
        Some("Network Authentication Required"@)
    } else {
        None
    }
}

/// The reason phrase for `status`, or nothing for a code the table
/// does not cover.
pub fn reason_phrase(status: u32) -> (r: Option<&'static str>)
    ensures
        match r {
            Some(s) => reason_spec(status) == Some(s@),
            None => reason_spec(status) is None,
        },
{
    match status {
        100 => Some("Continue"),
        101 => Some("Switching Protocol"),
        102 => Some("Processing"),
        103 => Some("Early Hints"),
        200 => Some("OK"),
        201 => Some("Created"),
        202 => Some("Accepted"),
        203 => Some("Non-Authoritative Information"),
        204 => Some("No Content"),
        205 => Some("Reset Content"),
        206 => Some("Partial Content"),
        207 => Some("Multi-Status"),
        208 => Some("Already Reported"),
        226 => Some("IM Used"),
        300 => Some("Multiple Choice"),
        301 => Some("Moved Permanently"),
        302 => Some("Found"),
        303 => Some("See Other"),
        304 => Some("Not Modified"),
        307 => Some("Temporary Redirect"),
        308 => Some("Permanent Redirect"),
        400 => Some("Bad Request"),
        401 => Some("Unauthorized"),
        402 => Some("Payment Required"),
        403 => Some("Forbidden"),
        404 => Some("Not Found"),
        405 => Some("Method Not Allowed"),
        406 => Some("Not Acceptable"),
        407 => Some("Proxy Authentication Required"),
        408 => Some("Request Timeout"),
        409 => Some("Conflict"),
        410 => Some("Gone"),
        411 => Some("Length Required"),
        412 => Some("Precondition Failed"),
        413 => Some("Payload Too Large"),
        414 => Some("URI Too Long"),
        415 => Some("Unsupported Media Type"),
        416 => Some("Requested Range Not Satisfiable"),
        417 => Some("Expectation Failed"),
        418 => Some("I'm A Teapot"),
        421 => Some("Misdirected Request"),
        422 => Some("Unprocessable Entity"),
        423 => Some("Locked"),
        424 => Some("Failed Dependency"),
        425 => Some("Too Early"),
        426 => Some("Upgrade Required"),
        428 => Some("Precondition Required"),
        429 => Some("Too Many Requests"),
        431 => Some("Request Header Fields Too Large"),
        451 => Some("Unavailable For Legal Reasons"),
        500 => Some("Internal Server Error"),
        501 => Some("Not Implemented"),
        502 => Some("Bad Gateway"),
        503 => Some("Service Unavailable"),
        504 => Some("Gateway Timeout"),
        506 => Some("Variant Also Negotiates"),
        507 => Some("Insufficient Storage"),
        508 => Some("Loop Detected"),
        510 => Some("Not Extended"),
        511 => Some("Network Authentication Required"),
        _ => None,
    }
}

} // verus!
