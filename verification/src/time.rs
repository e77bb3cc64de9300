//! Timestamps, and resolving a page's origin-modified time from a raw
//! response head with a non-fatal fallback to the current time.

use vstd::prelude::*;

use crate::headers::{find_header_value, header_value};

verus! {

/// A point in time: seconds since the Unix epoch, together with the fixed
/// UTC offset, in seconds, it is displayed in.
#[derive(Clone, Copy, Debug, PartialEq, Eq, Structural)]
pub struct Timestamp {
    pub epoch_seconds: i64,
    pub offset_seconds: i32,
}

/// The epoch seconds that the RFC 2822 parser reads out of `s`, when `s`
/// is a well-formed RFC 2822 date, and `None` when it is not.
pub uninterp spec fn rfc2822_seconds(s: Seq<char>) -> Option<i64>;

/// The UTC offset, in seconds, that the RFC 2822 parser reads out of `s`.
pub uninterp spec fn rfc2822_offset(s: Seq<char>) -> i32;

/// Relies on chrono's `DateTime::parse_from_rfc2822`, whose result is a
/// function of the string alone; `timestamp` and `local_minus_utc` only
/// read the parsed value out as plain integers.
#[verifier::external_body]
fn parse_rfc2822(s: &str) -> (r: Option<Timestamp>)
    ensures
        r is Some <==> rfc2822_seconds(s@) is Some,
        r matches Some(t) ==> Some(t.epoch_seconds) == rfc2822_seconds(s@) && t.offset_seconds
            == rfc2822_offset(s@),
{
    match chrono::DateTime::parse_from_rfc2822(s) {
        Ok(d) => Some(
            Timestamp {
                epoch_seconds: d.timestamp(),
                offset_seconds: d.offset().local_minus_utc(),
            },
        ),
        Err(_) => None,
    }
}

/// Relies on chrono's `Utc::now`. Nothing is assumed of the current time
/// itself; the UTC offset of the result is zero.
#[verifier::external_body]
fn now_timestamp() -> (r: Timestamp)
    ensures
        r.offset_seconds == 0,
{
    let d = chrono::Utc::now();
    Timestamp { epoch_seconds: d.timestamp(), offset_seconds: 0 }
}

/// The origin-modified timestamp resolved from the date header found for a
/// page, if any, and the fallback time `now`: a well-formed header date
/// wins, anything else falls back to `now`.
pub open spec fn resolved_modified_spec(header: Option<Seq<char>>, now: Timestamp) -> Timestamp {
    match header {
        Some(d) => match rfc2822_seconds(d) {
            Some(s) => Timestamp { epoch_seconds: s, offset_seconds: rfc2822_offset(d) },
            None => now,
        },
        None => now,
    }
}

/// The fallback decision alone, with the fallback time passed in: exactly
/// `resolved_modified_spec` of the header value and `now`.
pub fn resolved_modified(header: Option<&String>, now: Timestamp) -> (r: Timestamp)
    ensures
        r == resolved_modified_spec(
            match header {
                Some(h) => Some(h@),
                None => None,
            },
            now,
        ),
{
    match header {
        Some(h) => match parse_rfc2822(h.as_str()) {
            Some(t) => t,
            None => now,
        },
        None => now,
    }
}

/// The date header of a raw response head: the value of its last `date`
/// line.
pub open spec fn date_header_of(head: Seq<char>) -> Option<Seq<char>> {
    header_value(head, "date"@)
}

/// The timestamp recorded for a remote page, resolved from the raw text of
/// the response head: the `date` header parsed as RFC 2822 when present and
/// well formed, the current time otherwise. A missing or malformed date is
/// the one condition the pipeline recovers from locally.
pub fn origin_modified_from_head(head: &str) -> (r: Timestamp)
    ensures
        match date_header_of(head@) {
            Some(d) => match rfc2822_seconds(d) {
                Some(s) => r == (Timestamp { epoch_seconds: s, offset_seconds: rfc2822_offset(d) }),
                None => r.offset_seconds == 0,
            },
            None => r.offset_seconds == 0,
        },
{
    let value = find_header_value(head, "date");
    let now = now_timestamp();
    resolved_modified(value.as_ref(), now)
}

} // verus!
