//! The parsed HTTP request and its byte-exact parsing and
//! serialization.
//!
//! A request arrives as the raw bytes read from the socket.  Parsing
//! splits them on CRLF into lines; the first line's
//! whitespace-delimited triplet gives method, URI and version; every
//! later line with exactly one colon gives a trimmed header pair, and
//! all other lines are skipped.

use vstd::prelude::*;

use crate::scan::{
    crlf_at, find_byte, find_byte_from, is_ws_byte, lemma_find_crlf_at, lemma_find_ws_at,
    lemma_find_ws_none, split_crlf, split_lines, split_whitespace, split_ws, trim_bytes, trim_spec,
};
use crate::table::{pairs_view, upsert, upsert_pair};
use crate::text::{append_bytes, ascii_seq, bytes_to_string, chars_of};
use crate::timefmt::{now_utc_timestamp, render_timestamp, rfc2822_render};

verus! {

/// Why a request was rejected.
#[derive(Clone, Copy, PartialEq, Eq, Structural, Debug)]
pub enum HttpError {
    /// The request line held fewer than three tokens.
    MalformedRequest,
}

/// The pairs `(name, value)` of a header list, as byte sequences.
pub open spec fn headers_view(h: Seq<(Vec<u8>, Vec<u8>)>) -> Seq<(Seq<u8>, Seq<u8>)> {
    pairs_view(h)
}

/// A line names a header when it holds exactly one colon; name and
/// value are the trimmed pieces around it.
pub open spec fn parse_header_line(line: Seq<u8>) -> Option<(Seq<u8>, Seq<u8>)> {
    let i = find_byte(line, 58);
    if 0 <= i < line.len() && find_byte(line.skip(i + 1), 58) < 0 {
        Some((trim_spec(line.take(i)), trim_spec(line.skip(i + 1))))
    } else {
        None
    }
}

/// One line's effect on the header list built so far.
pub open spec fn header_step(
    acc: Seq<(Seq<u8>, Seq<u8>)>,
    line: Seq<u8>,
) -> Seq<(Seq<u8>, Seq<u8>)> {
    match parse_header_line(line) {
        Some(kv) => upsert(acc, kv.0, kv.1),
        None => acc,
    }
}

/// The header list that a sequence of lines yields, processed in
/// order starting from `acc`.
pub open spec fn headers_fold(
    lines: Seq<Seq<u8>>,
    acc: Seq<(Seq<u8>, Seq<u8>)>,
) -> Seq<(Seq<u8>, Seq<u8>)>
    decreases lines.len(),
{
    if lines.len() == 0 {
        acc
    } else {
        headers_fold(lines.skip(1), header_step(acc, lines[0]))
    }
}

/// The whitespace-delimited tokens of the first line of `raw`.
pub open spec fn request_tokens(raw: Seq<u8>) -> Seq<Seq<u8>> {
    split_ws(split_crlf(raw)[0])
}

/// The headers parsed from the lines after the first.
pub open spec fn request_headers(raw: Seq<u8>) -> Seq<(Seq<u8>, Seq<u8>)> {
    headers_fold(split_crlf(raw).skip(1), Seq::empty())
}

/// The CRLF pair as bytes.
pub open spec fn crlf_seq() -> Seq<u8> {
    seq![13u8, 10u8]
}

/// `Name: Value\r\n` for each header pair, in order.
pub open spec fn serial_headers(hs: Seq<(Seq<u8>, Seq<u8>)>) -> Seq<u8>
    decreases hs.len(),
{
    if hs.len() == 0 {
        seq![]
    } else {
        hs[0].0 + seq![58u8, 32u8] + hs[0].1 + crlf_seq() + serial_headers(hs.skip(1))
    }
}

/// One header line's bytes.
pub open spec fn serial_header(k: Seq<u8>, v: Seq<u8>) -> Seq<u8> {
    k + seq![58u8, 32u8] + v + crlf_seq()
}

pub proof fn lemma_serial_headers_push(hs: Seq<(Seq<u8>, Seq<u8>)>, k: Seq<u8>, v: Seq<u8>)
    ensures
        serial_headers(hs.push((k, v))) == serial_headers(hs) + serial_header(k, v),
    decreases hs.len(),
{
    if hs.len() == 0 {
        assert(hs.push((k, v)).skip(1) =~= Seq::<(Seq<u8>, Seq<u8>)>::empty());
        assert(hs.push((k, v))[0] == (k, v));
        assert(serial_headers(Seq::<(Seq<u8>, Seq<u8>)>::empty()) == Seq::<u8>::empty());
        assert(serial_headers(hs.push((k, v))) == k + seq![58u8, 32u8] + v + crlf_seq()
            + Seq::<u8>::empty());
        assert(serial_headers(hs.push((k, v))) =~= serial_headers(hs) + serial_header(k, v));
    } else {
        assert(hs.push((k, v)).skip(1) =~= hs.skip(1).push((k, v)));
        lemma_serial_headers_push(hs.skip(1), k, v);
        assert(hs.push((k, v))[0] == hs[0]);
        assert(serial_headers(hs.push((k, v))) == hs[0].0 + seq![58u8, 32u8] + hs[0].1 + crlf_seq()
            + serial_headers(hs.skip(1).push((k, v))));
        assert(hs[0].0 + seq![58u8, 32u8] + hs[0].1 + crlf_seq() + (serial_headers(hs.skip(1))
            + serial_header(k, v)) =~= (hs[0].0 + seq![58u8, 32u8] + hs[0].1 + crlf_seq()
            + serial_headers(hs.skip(1))) + serial_header(k, v));
    }
}

/// The serialized request: `METHOD URI VERSION\r\n`, the headers,
/// then a blank line and the body when one is present.
pub open spec fn serial_request(
    m: Seq<u8>,
    u: Seq<u8>,
    v: Seq<u8>,
    hs: Seq<(Seq<u8>, Seq<u8>)>,
    body: Option<Seq<u8>>,
) -> Seq<u8> {
    m + seq![32u8] + u + seq![32u8] + v + crlf_seq() + serial_headers(hs) + (match body {
        Some(b) => crlf_seq() + b,
        None => seq![],
    })
}

/// One parsed request, scoped to one connection.
#[derive(Debug)]
pub struct HttpRequest {
    pub method: Vec<u8>,
    pub uri: Vec<u8>,
    pub version: Vec<u8>,
    pub headers: Vec<(Vec<u8>, Vec<u8>)>,
    pub body: Option<Vec<u8>>,
    /// Seconds of the moment the request was parsed; only log lines
    /// read it.
    pub timestamp: i64,
}

/// Parse one header line; mirrors [`parse_header_line`].
#[verifier::rlimit(30)]
fn parse_header_pair(line: &Vec<u8>) -> (r: Option<(Vec<u8>, Vec<u8>)>)
    ensures
        match r {
            Some(p) => parse_header_line(line@) == Some((p.0@, p.1@)),
            None => parse_header_line(line@) is None,
        },
{
    proof {
        assert(line@.skip(0) =~= line@);
    }
    let _n: usize = line.len();
    match find_byte_from(line.as_slice(), 0, 58) {
        None => None,
        Some(i) => {
            match find_byte_from(line.as_slice(), i + 1, 58) {
                Some(_) => None,
                None => {
                    let name = trim_bytes(vstd::slice::slice_subrange(line.as_slice(), 0, i));
                    let value = trim_bytes(
                        vstd::slice::slice_subrange(line.as_slice(), i + 1, line.len()),
                    );
                    proof {
                        assert(line@.subrange(0, i as int) =~= line@.take(i as int));
                        assert(line@.subrange(i + 1, line@.len() as int) =~= line@.skip(i + 1));
                    }
                    Some((name, value))
                },
            }
        },
    }
}

impl HttpRequest {
    /// The body as a byte sequence, when present.
    pub open spec fn body_view(&self) -> Option<Seq<u8>> {
        match self.body {
            Some(b) => Some(b@),
            None => None,
        }
    }

    /// Parse the raw bytes read from a connection.  Fails exactly
    /// when the first line holds fewer than three tokens.
    pub fn new(raw: &[u8]) -> (r: Result<HttpRequest, HttpError>)
        ensures
            r is Ok <==> request_tokens(raw@).len() >= 3,
            match r {
                Ok(req) => {
                    &&& req.method@ == request_tokens(raw@)[0]
                    &&& req.uri@ == request_tokens(raw@)[1]
                    &&& req.version@ == request_tokens(raw@)[2]
                    &&& headers_view(req.headers@) == request_headers(raw@)
                    &&& req.body is None
                },
                Err(e) => e == HttpError::MalformedRequest,
            },
    {
        let lines = split_lines(raw);
        let ghost all = lines.deep_view();
        proof {
            crate::scan::lemma_split_crlf_len(raw@);
            assert(all[0] == lines@[0].deep_view());
            assert(lines@[0].deep_view() =~= lines@[0]@);
        }
        let mut toks = split_whitespace(lines[0].as_slice());
        let ghost tokens = request_tokens(raw@);
        proof {
            assert(tokens == toks.deep_view());
        }
        if toks.len() < 3 {
            return Err(HttpError::MalformedRequest);
        }
        let method = toks.remove(0);
        let uri = toks.remove(0);
        let version = toks.remove(0);
        proof {
            assert(method.deep_view() =~= method@);
            assert(uri.deep_view() =~= uri@);
            assert(version.deep_view() =~= version@);
            assert(method@ == tokens[0]);
            assert(uri@ == tokens[1]);
            assert(version@ == tokens[2]);
        }
        let mut headers: Vec<(Vec<u8>, Vec<u8>)> = Vec::new();
        let mut i: usize = 1;
        proof {
            assert(headers_view(headers@) =~= Seq::<(Seq<u8>, Seq<u8>)>::empty());
        }
        while i < lines.len()
            invariant
                1 <= i <= lines@.len(),
                all == lines.deep_view(),
                headers_fold(all.skip(1), Seq::empty()) == headers_fold(
                    all.skip(i as int),
                    headers_view(headers@),
                ),
            decreases lines@.len() - i,
        {
            let ghost acc = headers_view(headers@);
            proof {
                assert(all.skip(i as int)[0] == all[i as int]);
                assert(all[i as int] == lines@[i as int].deep_view());
                assert(lines@[i as int].deep_view() =~= lines@[i as int]@);
                assert(all.skip(i as int).skip(1) =~= all.skip(i + 1));
            }
            match parse_header_pair(&lines[i]) {
                Some((k, v)) => {
                    upsert_pair(&mut headers, k, v);
                },
                None => {},
            }
            proof {
                assert(headers_view(headers@) == header_step(acc, all[i as int]));
            }
            i = i + 1;
        }
        proof {
            assert(all.skip(lines@.len() as int) =~= Seq::<Seq<u8>>::empty());
            assert(headers_view(headers@) == request_headers(raw@));
        }
        Ok(HttpRequest {
            method,
            uri,
            version,
            headers,
            body: None,
            timestamp: now_utc_timestamp(),
        })
    }

    /// The request serialized back to wire bytes.
    pub fn to_bytes(&self) -> (r: Vec<u8>)
        ensures
            r@ == serial_request(
                self.method@,
                self.uri@,
                self.version@,
                headers_view(self.headers@),
                self.body_view(),
            ),
    {
        let mut out: Vec<u8> = Vec::new();
        append_bytes(&mut out, self.method.as_slice());
        out.push(32);
        append_bytes(&mut out, self.uri.as_slice());
        out.push(32);
        append_bytes(&mut out, self.version.as_slice());
        out.push(13);
        out.push(10);
        let ghost line = self.method@ + seq![32u8] + self.uri@ + seq![32u8] + self.version@
            + crlf_seq();
        let ghost hv = headers_view(self.headers@);
        proof {
            assert(out@ =~= line);
            assert(hv.take(0) =~= Seq::<(Seq<u8>, Seq<u8>)>::empty());
            assert(out@ =~= line + serial_headers(hv.take(0)));
        }
        let mut i: usize = 0;
        while i < self.headers.len()
            invariant
                i <= self.headers@.len(),
                hv == headers_view(self.headers@),
                line == self.method@ + seq![32u8] + self.uri@ + seq![32u8] + self.version@
                    + crlf_seq(),
                out@ == line + serial_headers(hv.take(i as int)),
            decreases self.headers@.len() - i,
        {
            let p = &self.headers[i];
            append_bytes(&mut out, p.0.as_slice());
            out.push(58);
            out.push(32);
            append_bytes(&mut out, p.1.as_slice());
            out.push(13);
            out.push(10);
            proof {
                assert(hv[i as int] == (p.0@, p.1@));
                assert(hv.take(i + 1) =~= hv.take(i as int).push(hv[i as int]));
                lemma_serial_headers_push(hv.take(i as int), p.0@, p.1@);
                assert(out@ =~= line + serial_headers(hv.take(i + 1)));
            }
            i = i + 1;
        }
        proof {
            assert(hv.take(hv.len() as int) =~= hv);
        }
        match &self.body {
            Some(b) => {
                out.push(13);
                out.push(10);
                append_bytes(&mut out, b.as_slice());
            },
            None => {},
        }
        proof {
            assert(out@ =~= serial_request(
                self.method@,
                self.uri@,
                self.version@,
                hv,
                self.body_view(),
            ));
        }
        out
    }

    /// The serialized request as text; exact whenever the request is
    /// ASCII, as HTTP requests are.
    pub fn to_string(&self) -> (r: String)
        ensures
            ({
                let bs = serial_request(
                    self.method@,
                    self.uri@,
                    self.version@,
                    headers_view(self.headers@),
                    self.body_view(),
                );
                ascii_seq(bs) ==> r@ == chars_of(bs)
            }),
    {
        let b = self.to_bytes();
        bytes_to_string(b.as_slice())
    }

    /// The bytes of the log line for this request:
    /// `[<time> | <method> <uri>]`.
    pub open spec fn status_bytes(&self) -> Seq<u8> {
        seq![91u8] + rfc2822_render(self.timestamp) + seq![32u8, 124u8, 32u8] + self.method@ + seq![
            32u8,
        ] + self.uri@ + seq![93u8]
    }

    /// The log line for this request.
    pub fn status_string(&self) -> (r: String)
        ensures
            ascii_seq(self.status_bytes()) ==> r@ == chars_of(self.status_bytes()),
    {
        let mut out: Vec<u8> = Vec::new();
        out.push(91);
        let ts = render_timestamp(self.timestamp);
        append_bytes(&mut out, ts.as_slice());
        out.push(32);
        out.push(124);
        out.push(32);
        append_bytes(&mut out, self.method.as_slice());
        out.push(32);
        append_bytes(&mut out, self.uri.as_slice());
        out.push(93);
        proof {
            assert(out@ =~= self.status_bytes());
        }
        bytes_to_string(out.as_slice())
    }
}

/// A request-line token carries no whitespace byte.
pub open spec fn token_ok(t: Seq<u8>) -> bool {
    forall|i: int| 0 <= i < t.len() ==> !is_ws_byte(#[trigger] t[i])
}

/// A header pair fit for the wire: neither name nor value holds a CR
/// or LF byte.
pub open spec fn header_wire_ok(p: (Seq<u8>, Seq<u8>)) -> bool {
    &&& forall|i: int| 0 <= i < p.0.len() ==> (#[trigger] p.0[i]) != 13 && p.0[i] != 10
    &&& forall|i: int| 0 <= i < p.1.len() ==> (#[trigger] p.1[i]) != 13 && p.1[i] != 10
}

/// Splitting a token-then-separator prefix off keeps the rest intact.
proof fn lemma_split_ws_token(a: Seq<u8>, d: u8, rest: Seq<u8>)
    requires
        token_ok(a),
        is_ws_byte(d),
    ensures
        split_ws(a + seq![d] + rest) == seq![a] + split_ws(rest),
{
    let s = a + seq![d] + rest;
    assert(s[a.len() as int] == d);
    assert(forall|j: int| 0 <= j < a.len() ==> s[j] == a[j]);
    lemma_find_ws_at(s, a.len() as int);
    assert(s.take(a.len() as int) =~= a);
    assert(s.skip(a.len() as int + 1) =~= rest);
}

/// A whitespace-free sequence is one whole token.
proof fn lemma_split_ws_whole(a: Seq<u8>)
    requires
        token_ok(a),
    ensures
        split_ws(a) == seq![a],
{
    lemma_find_ws_none(a);
}

/// Parsing recovers what serialization wrote: for any
/// whitespace-free method, URI and version and any wire-fit headers,
/// parsing the serialized request yields the same three tokens, so a
/// re-serialization starts with the identical request line.
pub proof fn lemma_parse_round_trip(m: Seq<u8>, u: Seq<u8>, v: Seq<u8>, hs: Seq<(Seq<u8>, Seq<u8>)>)
    requires
        token_ok(m),
        token_ok(u),
        token_ok(v),
        forall|j: int| 0 <= j < hs.len() ==> header_wire_ok(#[trigger] hs[j]),
    ensures
        ({
            let raw = serial_request(m, u, v, hs, None);
            let toks = request_tokens(raw);
            &&& toks.len() == 3
            &&& toks[0] == m
            &&& toks[1] == u
            &&& toks[2] == v
        }),
{
    let line = m + seq![32u8] + u + seq![32u8] + v;
    let raw = serial_request(m, u, v, hs, None);
    let rest = serial_headers(hs);
    assert(raw =~= line + crlf_seq() + rest);
    assert(forall|j: int| 0 <= j < line.len() ==> #[trigger] line[j] != 13);
    assert(raw[line.len() as int] == 13 && raw[line.len() as int + 1] == 10);
    assert(crlf_at(raw, line.len() as int));
    assert forall|j: int| 0 <= j < line.len() implies !crlf_at(raw, j) by {
        assert(raw[j] == line[j]);
    }
    lemma_find_crlf_at(raw, line.len() as int);
    assert(raw.take(line.len() as int) =~= line);
    assert(split_crlf(raw)[0] == line);
    assert(line =~= m + seq![32u8] + (u + seq![32u8] + v));
    lemma_split_ws_token(m, 32, u + seq![32u8] + v);
    lemma_split_ws_token(u, 32, v);
    lemma_split_ws_whole(v);
    assert(split_ws(line) =~= seq![m, u, v]);
}

} // verus!
