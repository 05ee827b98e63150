//! Per-connection decisions: turning a parsed request, the route
//! lookup's outcome and the configuration into the response.  The
//! socket work around these calls — reading, writing, TLS — stays
//! outside the library.

use vstd::prelude::*;
use vstd::string::StringSliceAdditionalSpecFns;

use crate::config::{method_allowed, HttpdConfig};
use crate::content_type::content_type_text;
use crate::pct::{pct_decode, percent_decode_bytes};
use crate::request::HttpRequest;
use crate::response::{not_found_body, HttpResponse};
use crate::statuses::reason_spec;
use crate::table::upsert;
use crate::text::{append_bytes, ascii_of};

verus! {

/// `s` with every leading slash removed.
pub open spec fn strip_slashes(s: Seq<u8>) -> Seq<u8>
    decreases s.len(),
{
    if s.len() > 0 && s[0] == 47 {
        strip_slashes(s.skip(1))
    } else {
        s
    }
}

/// Remove every leading slash of `s`.
fn strip_slashes_bytes(s: &[u8]) -> (r: Vec<u8>)
    ensures
        r@ == strip_slashes(s@),
{
    let mut a: usize = 0;
    proof {
        assert(s@.skip(0) =~= s@);
    }
    while a < s.len() && s[a] == 47
        invariant
            a <= s@.len(),
            strip_slashes(s@) == strip_slashes(s@.skip(a as int)),
        decreases s@.len() - a,
    {
        proof {
            assert(s@.skip(a as int).skip(1) =~= s@.skip(a + 1));
        }
        a = a + 1;
    }
    proof {
        assert(strip_slashes(s@.skip(a as int)) == s@.skip(a as int));
        assert(s@.skip(a as int) =~= s@.subrange(a as int, s@.len() as int));
    }
    vstd::slice::slice_to_vec(vstd::slice::slice_subrange(s, a, s.len()))
}

/// The filesystem candidate for a URI that missed the route table:
/// the percent-decoded URI with its leading slashes removed, a path
/// relative to the served directory.
pub fn candidate_path(uri: &[u8]) -> (r: Vec<u8>)
    ensures
        r@ == strip_slashes(pct_decode(uri@)),
{
    let decoded = percent_decode_bytes(uri);
    strip_slashes_bytes(decoded.as_slice())
}

/// The path under `root` that a URI names directly.
pub fn uri_to_path(root: &[u8], uri: &[u8]) -> (r: Vec<u8>)
    ensures
        r@ == root@ + seq![47u8] + strip_slashes(uri@),
{
    let mut r = vstd::slice::slice_to_vec(root);
    r.push(47);
    let rest = strip_slashes_bytes(uri);
    append_bytes(&mut r, rest.as_slice());
    r
}

/// The private key a TLS listener uses: the first PKCS#8 key of the
/// key file, else its first RSA key, else nothing.
pub fn select_private_key(pkcs8: &Vec<Vec<u8>>, rsa: &Vec<Vec<u8>>) -> (r: Option<Vec<u8>>)
    ensures
        pkcs8@.len() > 0 ==> (r matches Some(k) && k@ == pkcs8@[0]@),
        pkcs8@.len() == 0 && rsa@.len() > 0 ==> (r matches Some(k) && k@ == rsa@[0]@),
        pkcs8@.len() == 0 && rsa@.len() == 0 ==> r is None,
{
    if pkcs8.len() > 0 {
        Some(crate::text::clone_bytes(&pkcs8[0]))
    } else if rsa.len() > 0 {
        Some(crate::text::clone_bytes(&rsa[0]))
    } else {
        None
    }
}

/// The response for one request.  `path` is the path the URI
/// resolved to, or the probed candidate when it did not; `resolved`
/// says which; `content` holds the file's bytes when the caller read
/// them.  A method outside the allow list gets 405 whatever the path;
/// an allowed method gets 200 for a resolved path and otherwise the
/// fixed 404 page.  The `Server` header is set last.
pub fn respond(
    config: &HttpdConfig,
    request: &HttpRequest,
    path: &[u8],
    path_is_dir: bool,
    resolved: bool,
    content: Option<Vec<u8>>,
    server: &str,
) -> (r: HttpResponse)
    ensures
        !method_allowed(config.allowed_methods.deep_view(), request.method@) ==> r.status == 405,
        method_allowed(config.allowed_methods.deep_view(), request.method@) && resolved
            ==> r.status == 200,
        method_allowed(config.allowed_methods.deep_view(), request.method@) && !resolved ==> {
            &&& r.status == 404
            &&& r.body_view() == Some(not_found_body())
        },
        r.version@ == request.version@,
        r.uri@ == request.uri@,
        Some(r.reason@) == reason_spec(r.status as u32),
        r.status != 404 ==> crate::request::headers_view(r.headers@) == upsert(
            seq![(ascii_of("Content-Type"@), ascii_of(content_type_text(path@, path_is_dir)))],
            ascii_of("Server"@),
            ascii_of(server@),
        ),
        r.status == 404 ==> crate::request::headers_view(r.headers@) == upsert(
            seq![(ascii_of("Content-Type"@), ascii_of("text/html; charset=utf-8"@))],
            ascii_of("Server"@),
            ascii_of(server@),
        ),
        r.status != 404 ==> r.body_view() == (if request.method@ == "GET".spec_bytes() {
            match content {
                Some(b) => Some(b@),
                None => None::<Seq<u8>>,
            }
        } else {
            None::<Seq<u8>>
        }),
{
    let allowed = config.allows_method(request.method.as_slice());
    let resp = if !allowed {
        HttpResponse::new(request, path, path_is_dir, content, 405)
    } else if resolved {
        HttpResponse::new(request, path, path_is_dir, content, 200)
    } else {
        HttpResponse::not_found(request)
    };
    resp.with_header("Server", server)
}

} // verus!
