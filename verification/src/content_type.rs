//! Media types: mapping a path's extension to the `Content-Type`
//! header value.  The filesystem question — is the path a directory —
//! arrives as a boolean from the caller.

use vstd::prelude::*;
use vstd::string::StringSliceAdditionalSpecFns;

verus! {

/// Index of the last occurrence of `c` in `s`, or a negative value.
pub open spec fn rfind_byte(s: Seq<u8>, c: u8) -> int
    decreases s.len(),
{
    if s.len() == 0 {
        -1
    } else if s[s.len() - 1] == c {
        s.len() - 1
    } else {
        rfind_byte(s.take(s.len() - 1), c)
    }
}

pub proof fn lemma_rfind_byte_none(s: Seq<u8>, c: u8)
    requires
        forall|j: int| 0 <= j < s.len() ==> #[trigger] s[j] != c,
    ensures
        rfind_byte(s, c) == -1,
    decreases s.len(),
{
    if s.len() > 0 {
        assert(forall|j: int| 0 <= j < s.take(s.len() - 1).len() ==> s.take(s.len() - 1)[j]
            == s[j]);
        lemma_rfind_byte_none(s.take(s.len() - 1), c);
    }
}

pub proof fn lemma_rfind_byte_at(s: Seq<u8>, c: u8, i: int)
    requires
        0 <= i < s.len(),
        s[i] == c,
        forall|j: int| i < j < s.len() ==> #[trigger] s[j] != c,
    ensures
        rfind_byte(s, c) == i,
    decreases s.len(),
{
    if i < s.len() - 1 {
        assert(forall|j: int| 0 <= j < s.take(s.len() - 1).len() ==> s.take(s.len() - 1)[j]
            == s[j]);
        lemma_rfind_byte_at(s.take(s.len() - 1), c, i);
    }
}

/// Scan backwards for the last occurrence of `c`.
pub fn rfind(s: &[u8], c: u8) -> (r: Option<usize>)
    ensures
        match r {
            Some(j) => j < s@.len() && rfind_byte(s@, c) == j,
            None => rfind_byte(s@, c) == -1,
        },
{
    let mut j = s.len();
    while j > 0
        invariant
            j <= s@.len(),
            forall|t: int| j <= t < s@.len() ==> #[trigger] s@[t] != c,
        decreases j,
    {
        if s[j - 1] == c {
            proof {
                lemma_rfind_byte_at(s@, c, j - 1);
            }
            return Some(j - 1);
        }
        j = j - 1;
    }
    proof {
        lemma_rfind_byte_none(s@, c);
    }
    None
}

/// The extension of a path: the piece of its final component after
/// the last dot, absent when there is no dot or the component starts
/// with its only dot.
pub open spec fn ext_of(p: Seq<u8>) -> Option<Seq<u8>> {
    let name = p.skip(rfind_byte(p, 47) + 1);
    let d = rfind_byte(name, 46);
    if d <= 0 {
        None
    } else {
        Some(name.skip(d + 1))
    }
}

/// The extension of `p`, as [`ext_of`] describes.
pub fn extension_of(p: &[u8]) -> (r: Option<Vec<u8>>)
    ensures
        match r {
            Some(e) => ext_of(p@) == Some(e@),
            None => ext_of(p@) is None,
        },
{
    let _n: usize = p.len();
    let start = match rfind(p, 47) {
        Some(j) => j + 1,
        None => 0,
    };
    let name = vstd::slice::slice_subrange(p, start, p.len());
    proof {
        assert(name@ =~= p@.skip(rfind_byte(p@, 47) + 1));
    }
    match rfind(name, 46) {
        None => None,
        Some(0) => None,
        Some(d) => {
            let e = vstd::slice::slice_to_vec(
                vstd::slice::slice_subrange(name, d + 1, name.len()),
            );
            proof {
                assert(e@ =~= name@.skip(d + 1));
            }
            Some(e)
        },
    }
}

/// A media type: its top-level type and its subtype.
pub enum MediaType {
    Application(String),
    Audio(String),
    Example(String),
    Font(String),
    Image(String),
    Model(String),
    Text(String),
    Video(String),
}

impl MediaType {
    /// The `type/subtype` text of this media type.
    pub open spec fn as_text(&self) -> Seq<char> {
        match self {
            MediaType::Application(s) => "application/"@ + s@,
            MediaType::Audio(s) => "audio/"@ + s@,
            MediaType::Example(s) => "example/"@ + s@,
            MediaType::Font(s) => "font/"@ + s@,
            MediaType::Image(s) => "image/"@ + s@,
            MediaType::Model(s) => "model/"@ + s@,
            MediaType::Text(s) => "text/"@ + s@,
            MediaType::Video(s) => "video/"@ + s@,
        }
    }

    /// Renders `type/subtype`.
    pub fn to_string(&self) -> (r: String)
        ensures
            r@ == self.as_text(),
    {
        match self {
            MediaType::Application(s) => String::from_str("application/").concat(s.as_str()),
            MediaType::Audio(s) => String::from_str("audio/").concat(s.as_str()),
            MediaType::Example(s) => String::from_str("example/").concat(s.as_str()),
            MediaType::Font(s) => String::from_str("font/").concat(s.as_str()),
            MediaType::Image(s) => String::from_str("image/").concat(s.as_str()),
            MediaType::Model(s) => String::from_str("model/").concat(s.as_str()),
            MediaType::Text(s) => String::from_str("text/").concat(s.as_str()),
            MediaType::Video(s) => String::from_str("video/").concat(s.as_str()),
        }
    }
}

/// A `Content-Type` value: a media type and an optional parameter.
pub struct ContentType {
    pub media_type: MediaType,
    pub parameter: Option<(String, String)>,
}

/// The media-type text a path maps to.
pub open spec fn media_text(p: Seq<u8>, is_dir: bool) -> Seq<char> {
    if is_dir {
        "text/"@ + "html"@
    } else {
        match ext_of(p) {
            None => "text/"@ + "plain"@,
            Some(e) => ext_media_text(e),
        }
    }
}

/// The media-type text of an extension; unknown ones fall back to
/// `application/octet-stream`.
pub open spec fn ext_media_text(e: Seq<u8>) -> Seq<char> {
    if e == "html".spec_bytes() || e == "htm".spec_bytes() {
        "text/"@ + "html"@
    } else if e == "js".spec_bytes() {
        "text/"@ + "javascript"@
    } else if e == "css".spec_bytes() {
        "text/"@ + "css"@
    } else if e == "ico".spec_bytes() || e == "cur".spec_bytes() {
        "image/"@ + "x-icon"@
    } else if e == "jpg".spec_bytes() || e == "jpeg".spec_bytes() || e == "jfif".spec_bytes() || e
        == "pjpeg".spec_bytes() || e == "pjp".spec_bytes() {
        "image/"@ + "jpeg"@
    } else if e == "png".spec_bytes() {
        "image/"@ + "png"@
    } else if e == "svg".spec_bytes() {
        "image/"@ + "svg+xml"@
    } else if e == "json".spec_bytes() {
        "application/"@ + "json"@
    } else {
        "application/"@ + "octet-stream"@
    }
}

/// Whether the path maps to HTML, which carries a charset parameter:
/// a directory, or a file whose extension reads `html` or `htm`.
pub open spec fn is_html(p: Seq<u8>, is_dir: bool) -> bool {
    is_dir || (ext_of(p) matches Some(e) && (e == "html".spec_bytes() || e == "htm".spec_bytes()))
}

/// The full `Content-Type` text of a path.
pub open spec fn content_type_text(p: Seq<u8>, is_dir: bool) -> Seq<char> {
    if is_html(p, is_dir) {
        media_text(p, is_dir) + "; "@ + "charset"@ + "="@ + "utf-8"@
    } else {
        media_text(p, is_dir)
    }
}

impl ContentType {
    /// The header-value text of this content type.
    pub open spec fn as_text(&self) -> Seq<char> {
        match self.parameter {
            Some((k, v)) => self.media_type.as_text() + "; "@ + k@ + "="@ + v@,
            None => self.media_type.as_text(),
        }
    }

    /// Renders the header value, `type/subtype` with the parameter
    /// appended as `; key=value` when one is present.
    pub fn to_string(&self) -> (r: String)
        ensures
            r@ == self.as_text(),
    {
        let mt = self.media_type.to_string();
        match &self.parameter {
            Some((k, v)) => mt.concat("; ").concat(k.as_str()).concat("=").concat(v.as_str()),
            None => mt,
        }
    }

    /// The content type a file path maps to: directories are HTML,
    /// files go by their extension, and HTML carries its charset.
    pub fn parse_from_filename(file: &[u8], is_dir: bool) -> (r: ContentType)
        ensures
            r.media_type.as_text() == media_text(file@, is_dir),
            r.as_text() == content_type_text(file@, is_dir),
    {
        let (media_type, html) = if is_dir {
            (MediaType::Text(String::from_str("html")), true)
        } else {
            match extension_of(file) {
                None => (MediaType::Text(String::from_str("plain")), false),
                Some(e) => {
                    let h = ext_is(&e, "html") || ext_is(&e, "htm");
                    (media_for_extension(&e), h)
                },
            }
        };
        let parameter = if html {
            Some((String::from_str("charset"), String::from_str("utf-8")))
        } else {
            None
        };
        ContentType { media_type, parameter }
    }
}

/// Whether `e` spells the word `w`, byte for byte.
fn ext_is(e: &Vec<u8>, w: &str) -> (r: bool)
    ensures
        r == (e@ == w.spec_bytes()),
{
    let wb = w.as_bytes_vec();
    crate::text::bytes_eq(e.as_slice(), wb.as_slice())
}

/// The media type of one extension.
fn media_for_extension(e: &Vec<u8>) -> (r: MediaType)
    ensures
        r.as_text() == ext_media_text(e@),
{
    if ext_is(e, "html") || ext_is(e, "htm") {
        MediaType::Text(String::from_str("html"))
    } else if ext_is(e, "js") {
        MediaType::Text(String::from_str("javascript"))
    } else if ext_is(e, "css") {
        MediaType::Text(String::from_str("css"))
    } else if ext_is(e, "ico") || ext_is(e, "cur") {
        MediaType::Image(String::from_str("x-icon"))
    } else if ext_is(e, "jpg") || ext_is(e, "jpeg") || ext_is(e, "jfif") || ext_is(e, "pjpeg")
        || ext_is(e, "pjp") {
        MediaType::Image(String::from_str("jpeg"))
    } else if ext_is(e, "png") {
        MediaType::Image(String::from_str("png"))
    } else if ext_is(e, "svg") {
        MediaType::Image(String::from_str("svg+xml"))
    } else if ext_is(e, "json") {
        MediaType::Application(String::from_str("json"))
    } else {
        MediaType::Application(String::from_str("octet-stream"))
    }
}

/// The `Content-Type` header value for a path, as text.
pub fn parse_content_type(file: &[u8], is_dir: bool) -> (r: String)
    ensures
        r@ == content_type_text(file@, is_dir),
{
    ContentType::parse_from_filename(file, is_dir).to_string()
}

} // verus!
