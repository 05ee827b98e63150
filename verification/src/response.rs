//! The HTTP response: built from a request, a resolved path and a
//! status, and serialized byte-exactly.
//!
//! Reading the served file is the caller's part; the bytes arrive as
//! `content` and are attached only for `GET`.

use vstd::prelude::*;
use vstd::string::StringSliceAdditionalSpecFns;

use crate::content_type::{content_type_text, ContentType};
use crate::request::{crlf_seq, headers_view, serial_headers, HttpRequest};
use crate::statuses::{reason_phrase, reason_spec};
use crate::table::{pairs_view, upsert, upsert_pair};
use crate::text::{
    append_bytes, ascii_of, ascii_seq, bytes_eq, bytes_to_string, chars_of, dec_rec,
    string_ascii_bytes, u32_decimal,
};
use crate::timefmt::{now_utc_timestamp, render_timestamp, rfc2822_render};

verus! {

/// The fixed page served when no resource matches.
pub open spec fn not_found_text() -> Seq<char> {
    "<html><body><h1>404: Not Found</h1></body></html>"@
}

/// The fixed 404 body bytes.
pub open spec fn not_found_body() -> Seq<u8> {
    ascii_of(not_found_text())
}

/// The serialized response: `VERSION STATUS REASON\r\n`, the headers,
/// a blank line, then the raw body bytes.
pub open spec fn serial_response(
    version: Seq<u8>,
    status: u32,
    reason: Seq<char>,
    hs: Seq<(Seq<u8>, Seq<u8>)>,
    body: Option<Seq<u8>>,
) -> Seq<u8> {
    version + seq![32u8] + dec_rec(status as nat) + seq![32u8] + ascii_of(reason) + crlf_seq()
        + serial_headers(hs) + crlf_seq() + (match body {
        Some(b) => b,
        None => seq![],
    })
}

/// One response, built once, serialized, discarded.
pub struct HttpResponse {
    pub version: Vec<u8>,
    pub status: u32,
    pub reason: String,
    pub headers: Vec<(Vec<u8>, Vec<u8>)>,
    pub body: Option<Vec<u8>>,
    pub uri: Vec<u8>,
    /// Seconds of the moment the response was built; only log lines
    /// read it.
    pub timestamp: i64,
}

impl HttpResponse {
    /// The body as a byte sequence, when present.
    pub open spec fn body_view(&self) -> Option<Seq<u8>> {
        match self.body {
            Some(b) => Some(b@),
            None => None,
        }
    }

    /// The head of the wire image: status line, headers, blank line.
    pub open spec fn head_bytes(&self) -> Seq<u8> {
        self.version@ + seq![32u8] + dec_rec(self.status as nat) + seq![32u8] + ascii_of(
            self.reason@,
        ) + crlf_seq() + serial_headers(headers_view(self.headers@)) + crlf_seq()
    }

    /// The full wire image.
    pub open spec fn wire(&self) -> Seq<u8> {
        serial_response(
            self.version@,
            self.status,
            self.reason@,
            headers_view(self.headers@),
            self.body_view(),
        )
    }

    /// A response for a resolved resource.  The content type follows
    /// the path's extension; the caller read `content` from the path
    /// and it becomes the body exactly when the method is `GET`.
    pub fn new(
        request: &HttpRequest,
        path: &[u8],
        path_is_dir: bool,
        content: Option<Vec<u8>>,
        status: u32,
    ) -> (r: HttpResponse)
        requires
            reason_spec(status) is Some,
        ensures
            r.version@ == request.version@,
            r.status == status,
            Some(r.reason@) == reason_spec(status),
            headers_view(r.headers@) == seq![
                (ascii_of("Content-Type"@), ascii_of(content_type_text(path@, path_is_dir))),
            ],
            r.body_view() == (if request.method@ == "GET".spec_bytes() {
                match content {
                    Some(b) => Some(b@),
                    None => None::<Seq<u8>>,
                }
            } else {
                None::<Seq<u8>>
            }),
            r.uri@ == request.uri@,
    {
        let reason = match reason_phrase(status) {
            Some(s) => String::from_str(s),
            None => vstd::pervasive::unreached(),
        };
        let mut headers: Vec<(Vec<u8>, Vec<u8>)> = Vec::new();
        let ct = ContentType::parse_from_filename(path, path_is_dir).to_string();
        headers.push((string_ascii_bytes("Content-Type"), string_ascii_bytes(ct.as_str())));
        proof {
            assert(headers_view(headers@) =~= seq![
                (ascii_of("Content-Type"@), ascii_of(content_type_text(path@, path_is_dir))),
            ]);
        }
        let is_get = {
            let g = "GET".as_bytes_vec();
            bytes_eq(request.method.as_slice(), g.as_slice())
        };
        let body = if is_get {
            content
        } else {
            None
        };
        HttpResponse {
            version: crate::text::clone_bytes(&request.version),
            status,
            reason,
            headers,
            body,
            uri: crate::text::clone_bytes(&request.uri),
            timestamp: now_utc_timestamp(),
        }
    }

    /// The fixed 404 response: its body is the built-in not-found
    /// page, whatever the route table holds.
    pub fn not_found(request: &HttpRequest) -> (r: HttpResponse)
        ensures
            r.version@ == request.version@,
            r.status == 404,
            r.reason@ == "Not Found"@,
            headers_view(r.headers@) == seq![
                (ascii_of("Content-Type"@), ascii_of("text/html; charset=utf-8"@)),
            ],
            r.body_view() == Some(not_found_body()),
            r.uri@ == request.uri@,
    {
        let reason = match reason_phrase(404) {
            Some(s) => String::from_str(s),
            None => String::from_str("Not Found"),
        };
        let mut headers: Vec<(Vec<u8>, Vec<u8>)> = Vec::new();
        headers.push(
            (
                string_ascii_bytes("Content-Type"),
                string_ascii_bytes("text/html; charset=utf-8"),
            ),
        );
        proof {
            assert(headers_view(headers@) =~= seq![
                (ascii_of("Content-Type"@), ascii_of("text/html; charset=utf-8"@)),
            ]);
        }
        let body = string_ascii_bytes("<html><body><h1>404: Not Found</h1></body></html>");
        HttpResponse {
            version: crate::text::clone_bytes(&request.version),
            status: 404,
            reason,
            headers,
            body: Some(body),
            uri: crate::text::clone_bytes(&request.uri),
            timestamp: now_utc_timestamp(),
        }
    }

    /// The response with `k: v` set, replacing any value `k` held.
    pub fn with_header(self, k: &str, v: &str) -> (r: HttpResponse)
        ensures
            headers_view(r.headers@) == upsert(
                headers_view(self.headers@),
                ascii_of(k@),
                ascii_of(v@),
            ),
            r.version@ == self.version@,
            r.status == self.status,
            r.reason@ == self.reason@,
            r.body_view() == self.body_view(),
            r.uri@ == self.uri@,
            r.timestamp == self.timestamp,
    {
        let mut this = self;
        upsert_pair(&mut this.headers, string_ascii_bytes(k), string_ascii_bytes(v));
        this
    }

    /// The head of the wire image: status line, each header, and the
    /// blank line that ends the head.
    fn head_vec(&self) -> (r: Vec<u8>)
        ensures
            r@ == self.head_bytes(),
    {
        let mut out: Vec<u8> = Vec::new();
        append_bytes(&mut out, self.version.as_slice());
        out.push(32);
        let digits = u32_decimal(self.status);
        append_bytes(&mut out, digits.as_slice());
        out.push(32);
        let reason = string_ascii_bytes(self.reason.as_str());
        append_bytes(&mut out, reason.as_slice());
        out.push(13);
        out.push(10);
        let ghost line = self.version@ + seq![32u8] + dec_rec(self.status as nat) + seq![32u8]
            + ascii_of(self.reason@) + crlf_seq();
        let ghost hv = headers_view(self.headers@);
        proof {
            assert(out@ =~= line);
            assert(hv.take(0) =~= Seq::<(Seq<u8>, Seq<u8>)>::empty());
            assert(out@ =~= line + serial_headers(hv.take(0)));
        }
        let mut i: usize = 0;
        while i < self.headers.len()
            invariant
                i <= self.headers@.len(),
                hv == headers_view(self.headers@),
                line == self.version@ + seq![32u8] + dec_rec(self.status as nat) + seq![32u8]
                    + ascii_of(self.reason@) + crlf_seq(),
                out@ == line + serial_headers(hv.take(i as int)),
            decreases self.headers@.len() - i,
        {
            let p = &self.headers[i];
            append_bytes(&mut out, p.0.as_slice());
            out.push(58);
            out.push(32);
            append_bytes(&mut out, p.1.as_slice());
            out.push(13);
            out.push(10);
            proof {
                assert(hv[i as int] == (p.0@, p.1@));
                assert(hv.take(i + 1) =~= hv.take(i as int).push(hv[i as int]));
                crate::request::lemma_serial_headers_push(hv.take(i as int), p.0@, p.1@);
                assert(out@ =~= line + serial_headers(hv.take(i + 1)));
            }
            i = i + 1;
        }
        out.push(13);
        out.push(10);
        proof {
            assert(hv.take(hv.len() as int) =~= hv);
            assert(out@ =~= self.head_bytes());
        }
        out
    }

    /// The full wire image: the head, then the raw body bytes.
    pub fn to_vectored_bytes(&self) -> (r: Vec<u8>)
        ensures
            r@ == self.wire(),
    {
        let mut out = self.head_vec();
        match &self.body {
            Some(b) => {
                append_bytes(&mut out, b.as_slice());
            },
            None => {},
        }
        proof {
            assert(out@ =~= self.wire());
        }
        out
    }

    /// The status line and headers as text, without the body, which
    /// need not be text.
    pub fn get_header_string(&self) -> (r: String)
        ensures
            ascii_seq(self.head_bytes()) ==> r@ == chars_of(self.head_bytes()),
    {
        let head = self.head_vec();
        bytes_to_string(head.as_slice())
    }

    /// The bytes of the log line for this response:
    /// `[<time> | <status> <reason> <uri>]`.
    pub open spec fn status_bytes(&self) -> Seq<u8> {
        seq![91u8] + rfc2822_render(self.timestamp) + seq![32u8, 124u8, 32u8] + dec_rec(
            self.status as nat,
        ) + seq![32u8] + ascii_of(self.reason@) + seq![32u8] + self.uri@ + seq![93u8]
    }

    /// The log line for this response.
    pub fn status_string(&self) -> (r: String)
        ensures
            ascii_seq(self.status_bytes()) ==> r@ == chars_of(self.status_bytes()),
    {
        let mut out: Vec<u8> = Vec::new();
        out.push(91);
        let ts = render_timestamp(self.timestamp);
        append_bytes(&mut out, ts.as_slice());
        out.push(32);
        out.push(124);
        out.push(32);
        let digits = u32_decimal(self.status);
        append_bytes(&mut out, digits.as_slice());
        out.push(32);
        let reason = string_ascii_bytes(self.reason.as_str());
        append_bytes(&mut out, reason.as_slice());
        out.push(32);
        append_bytes(&mut out, self.uri.as_slice());
        out.push(93);
        proof {
            assert(out@ =~= self.status_bytes());
        }
        bytes_to_string(out.as_slice())
    }
}

} // verus!
