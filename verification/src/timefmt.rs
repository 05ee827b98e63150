//! Timestamps for request and response log lines, taken from and
//! rendered by chrono.

use vstd::prelude::*;

verus! {

/// The first second of year 0, the earliest moment the RFC 2822
/// shape can carry.
pub const RFC2822_TS_MIN: i64 = -62167219200;

/// The last second of year 9999, the latest moment the RFC 2822
/// shape can carry.
pub const RFC2822_TS_MAX: i64 = 253402300799;

/// The RFC 2822 rendering of a UTC timestamp.  It depends on the
/// timestamp value alone; nothing more is assumed of it.
pub uninterp spec fn rfc2822_of(t: i64) -> Seq<u8>;

/// The rendering of a timestamp in a log line: its RFC 2822 form
/// when the shape can carry it, empty otherwise.
pub open spec fn rfc2822_render(t: i64) -> Seq<u8> {
    if RFC2822_TS_MIN <= t <= RFC2822_TS_MAX {
        rfc2822_of(t)
    } else {
        Seq::empty()
    }
}

/// Relies on `chrono::Utc::now`: the seconds of the current time.
/// Nothing is assumed of the value.  (`Utc::now` refuses a process
/// clock standing before 1970.)
#[verifier::external_body]
pub(crate) fn now_utc_timestamp() -> i64 {
    chrono::Utc::now().timestamp()
}

/// Relies on `chrono::DateTime::from_timestamp` and
/// `DateTime::<Utc>::to_rfc2822`: the rendering is a function of the
/// timestamp alone.  The admitted range lies inside the range
/// `from_timestamp` accepts, and keeps `to_rfc2822` off the years it
/// refuses to write.
#[verifier::external_body]
fn format_rfc2822(t: i64) -> (r: Vec<u8>)
    requires
        RFC2822_TS_MIN <= t <= RFC2822_TS_MAX,
    ensures
        r@ == rfc2822_of(t),
{
    match chrono::DateTime::from_timestamp(t, 0) {
        Some(d) => d.to_rfc2822().into_bytes(),
        None => Vec::new(),
    }
}

/// Render a timestamp for a log line, as [`rfc2822_render`]
/// describes.
pub fn render_timestamp(t: i64) -> (r: Vec<u8>)
    ensures
        r@ == rfc2822_render(t),
{
    if RFC2822_TS_MIN <= t && t <= RFC2822_TS_MAX {
        format_rfc2822(t)
    } else {
        Vec::new()
    }
}

} // verus!
