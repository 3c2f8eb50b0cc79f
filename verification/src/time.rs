//! Frame timestamps.
//!
//! The capture tool renders each frame's time as a human-readable string such
//! as `"Mar  5, 2021 08:49:52.736275000 CET"`.  Only the wall-clock fields
//! are trusted: the trailing timezone name is discarded and no UTC conversion
//! is attempted, so a [`Timestamp`] is an ordering key local to one capture,
//! not a true instant.

use chrono::Datelike;
use chrono::Timelike;
use vstd::prelude::*;

verus! {

/// The wall-clock fields of one captured frame's timestamp.
#[derive(Debug, Clone, Copy, PartialEq, Eq, Structural)]
pub struct Timestamp {
    pub year: i32,
    pub month: u32,
    pub day: u32,
    pub hour: u32,
    pub minute: u32,
    pub second: u32,
    pub nanosecond: u32,
}

impl Timestamp {
    /// The placeholder for a packet whose `frame` block carries no time.
    pub open spec fn spec_epoch() -> Timestamp {
        Timestamp { year: 1970, month: 1, day: 1, hour: 0, minute: 0, second: 0, nanosecond: 0 }
    }

    /// The start of 1970, used when a packet carries no frame time.
    pub fn epoch() -> (r: Timestamp)
        ensures
            r == Timestamp::spec_epoch(),
    {
        Timestamp { year: 1970, month: 1, day: 1, hour: 0, minute: 0, second: 0, nanosecond: 0 }
    }
}

/// The wall-clock fields denoted by one `frame.time` attribute value under
/// the capture tool's format `"<month-name> <day>, <year> <h>:<m>:<s>.<frac>
/// <timezone-name>"`, or `None` when the text does not follow that format.
/// The result depends on the text alone.
pub uninterp spec fn frame_time_of(s: Seq<char>) -> Option<Timestamp>;

/// Relies on chrono's `NaiveDateTime::parse_from_str`: with the format
/// `"%b %e, %Y %T.%f %Z"` it reads month name, day, year, time and
/// fractional seconds, accepts and discards the trailing timezone name, and
/// the `Datelike`/`Timelike` accessors return the parsed wall-clock fields.
#[verifier::external_body]
pub(crate) fn parse_frame_time(s: &str) -> (r: Option<Timestamp>)
    ensures
        r == frame_time_of(s@),
{
    chrono::NaiveDateTime::parse_from_str(s, "%b %e, %Y %T.%f %Z").ok().map(|t| Timestamp {
        year: t.year(),
        month: t.month(),
        day: t.day(),
        hour: t.hour(),
        minute: t.minute(),
        second: t.second(),
        nanosecond: t.nanosecond(),
    })
}

} // verus!
