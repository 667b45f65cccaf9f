//! The current local time and its formatting, through `chrono`, and the
//! Unicode case mappings of `str`.
use vstd::prelude::*;

use std::fmt::Write;

verus! {

/// A moment with the local offset from UTC in effect then: seconds and
/// nanoseconds since the Unix epoch, and the offset in seconds east of UTC.
#[derive(Debug, Clone, Copy, PartialEq, Eq)]
pub struct LocalTime {
    pub secs: i64,
    pub nanos: u32,
    pub offset: i32,
}

/// What `chrono` writes for the moment (`secs`, `nanos`) at the UTC offset
/// `offset` with the `strftime`-style format `fmt`; none when the format
/// has an invalid specifier or the moment or offset is out of range.
pub uninterp spec fn strftime(secs: i64, nanos: u32, offset: i32, fmt: Seq<char>) -> Option<
    Seq<char>,
>;

/// The text of an optional string.
pub open spec fn opt_string(o: Option<String>) -> Option<Seq<char>> {
    match o {
        Some(s) => Some(s@),
        None => None,
    }
}

/// Formats the moment `t` with `fmt` through `chrono`:
/// `DateTime::from_timestamp`, `FixedOffset::east_opt`, and the
/// `DelayedFormat` of `format(fmt)` written into a string (a write error
/// from an invalid specifier gives none). The contract names the result
/// `strftime`.
#[verifier::external_body]
pub(crate) fn format_time(t: LocalTime, fmt: &str) -> (r: Option<String>)
    ensures
        opt_string(r) == strftime(t.secs, t.nanos, t.offset, fmt@),
{
    let offset = chrono::FixedOffset::east_opt(t.offset)?;
    let moment = chrono::DateTime::from_timestamp(t.secs, t.nanos)?.with_timezone(&offset);
    let mut out = String::new();
    write!(out, "{}", moment.format(fmt)).ok()?;
    Some(out)
}

/// `chrono::Local::now()`, as seconds, nanoseconds and the local UTC
/// offset. It depends on the clock and the time zone, so nothing is
/// claimed of it.
#[verifier::external_body]
pub(crate) fn local_now() -> LocalTime {
    let now = chrono::Local::now();
    LocalTime {
        secs: now.timestamp(),
        nanos: now.timestamp_subsec_nanos(),
        offset: now.offset().local_minus_utc(),
    }
}

/// The Unicode lower-case mapping of `s` (`str::to_lowercase`).
pub uninterp spec fn lowercase_of(s: Seq<char>) -> Seq<char>;

/// The Unicode upper-case mapping of `s` (`str::to_uppercase`).
pub uninterp spec fn uppercase_of(s: Seq<char>) -> Seq<char>;

/// `str::to_lowercase`; the contract names its result `lowercase_of`.
#[verifier::external_body]
pub(crate) fn to_lowercase(s: &str) -> (r: String)
    ensures
        r@ == lowercase_of(s@),
{
    s.to_lowercase()
}

/// `str::to_uppercase`; the contract names its result `uppercase_of`.
#[verifier::external_body]
pub(crate) fn to_uppercase(s: &str) -> (r: String)
    ensures
        r@ == uppercase_of(s@),
{
    s.to_uppercase()
}

} // verus!
