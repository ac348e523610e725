//! Timestamps as the log format carries them: an instant on the UTC time
//! line (seconds and sub-second nanoseconds) together with the numeric
//! offset the line was written with.

use vstd::prelude::*;

verus! {

/// A point in time read from a timestamped log line. `secs` and `nanos`
/// locate the instant relative to the Unix epoch in UTC; `offset_secs`
/// preserves the numeric UTC offset the line carried.
#[derive(Clone, Copy, PartialEq, Eq, Structural, Debug)]
pub struct Timestamp {
    pub secs: i64,
    pub nanos: u32,
    pub offset_secs: i32,
}

/// What the RFC 3339 parser of the chrono crate yields on a given character
/// sequence: `None` where the text is not a valid RFC 3339 date-time,
/// otherwise the `(seconds, nanoseconds, offset seconds)` of the instant.
pub uninterp spec fn rfc3339_timestamp(s: Seq<char>) -> Option<(int, int, int)>;

/// Relies on `chrono::DateTime::parse_from_rfc3339` to decide whether `s` is
/// a valid RFC 3339 date-time and to compute its instant, and on
/// `DateTime::timestamp`, `DateTime::timestamp_subsec_nanos` and
/// `FixedOffset::local_minus_utc` to read that instant out as plain integers.
#[verifier::external_body]
pub(crate) fn parse_rfc3339(s: &str) -> (r: Option<Timestamp>)
    ensures
        match r {
            Some(t) => rfc3339_timestamp(s@) == Some(
                (t.secs as int, t.nanos as int, t.offset_secs as int),
            ),
            None => rfc3339_timestamp(s@) is None,
        },
{
    match chrono::DateTime::parse_from_rfc3339(s) {
        Ok(dt) => Some(Timestamp {
            secs: dt.timestamp(),
            nanos: dt.timestamp_subsec_nanos(),
            offset_secs: dt.offset().local_minus_utc(),
        }),
        Err(_) => None,
    }
}

/// The instant of a timestamp in nanoseconds since the Unix epoch. The
/// preserved offset plays no part: it is display information only.
pub open spec fn instant_nanos(t: Timestamp) -> int {
    t.secs * 1_000_000_000 + t.nanos
}

/// Whole seconds from `start` to `end`, truncated toward zero; negative when
/// `end` lies before `start`.
pub open spec fn duration_secs(start: Timestamp, end: Timestamp) -> int {
    let d = instant_nanos(end) - instant_nanos(start);
    if d >= 0 {
        d / 1_000_000_000
    } else {
        -((-d) / 1_000_000_000)
    }
}

/// Whole seconds from `start` to `end`, truncated toward zero.
pub fn duration_seconds(start: &Timestamp, end: &Timestamp) -> (r: i128)
    ensures
        r == duration_secs(*start, *end),
{
    let en: i128 = (end.secs as i128) * 1_000_000_000 + (end.nanos as i128);
    let sn: i128 = (start.secs as i128) * 1_000_000_000 + (start.nanos as i128);
    let d: i128 = en - sn;
    if d >= 0 {
        let q: u128 = (d as u128) / 1_000_000_000;
        q as i128
    } else {
        let q: u128 = ((-d) as u128) / 1_000_000_000;
        -(q as i128)
    }
}

} // verus!
