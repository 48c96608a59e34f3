//! Timestamps of waypoints.

use vstd::prelude::*;

verus! {

/// An instant as a waypoint source gives it: whole seconds since the Unix
/// epoch, and the nanoseconds past that second.
#[derive(Clone, Copy, Debug, PartialEq, Eq, Structural)]
pub struct UnixTime {
    pub seconds: i64,
    pub nanosecond: u32,
}

/// The timestamp of the UTC date and time that `chrono` makes of a number of
/// seconds and nanoseconds, where it makes one.
pub uninterp spec fn chrono_timestamp(seconds: i64, nanosecond: u32) -> Option<i64>;

/// `chrono::DateTime::from_timestamp`, read back with `DateTime::timestamp`.
/// The first gives no date for seconds out of its range or nanoseconds that
/// are not valid; where it gives one, the second returns the seconds that
/// went in, as the two are documented to round-trip.
#[verifier::external_body]
fn utc_timestamp(seconds: i64, nanosecond: u32) -> (r: Option<i64>)
    ensures
        r == chrono_timestamp(seconds, nanosecond),
        r matches Some(t) ==> t == seconds,
{
    match chrono::DateTime::from_timestamp(seconds, nanosecond) {
        Some(moment) => Some(moment.timestamp()),
        None => None,
    }
}

/// The timestamp that stands for a converted instant: 0 where there is none.
pub fn timestamp_or_zero(converted: Option<i64>) -> (timestamp: i64)
    ensures
        timestamp == match converted {
            Some(t) => t,
            None => 0,
        },
{
    match converted {
        Some(t) => t,
        None => 0,
    }
}

/// The timestamp of a waypoint: 0 where the source gave no time or one that
/// is no UTC date, else its seconds.
pub open spec fn spec_extract_timestamp(time: Option<UnixTime>) -> i64 {
    match time {
        Some(t) => match chrono_timestamp(t.seconds, t.nanosecond) {
            Some(s) => s,
            None => 0,
        },
        None => 0,
    }
}

/// The timestamp of a waypoint, in seconds since the Unix epoch. A missing
/// time, or one that does not convert, counts as 0.
pub fn extract_timestamp(time: Option<UnixTime>) -> (timestamp: i64)
    ensures
        timestamp == spec_extract_timestamp(time),
        time is None ==> timestamp == 0,
        time matches Some(t) ==> timestamp == t.seconds || timestamp == 0,
{
    match time {
        Some(t) => timestamp_or_zero(utc_timestamp(t.seconds, t.nanosecond)),
        None => 0,
    }
}

} // verus!
