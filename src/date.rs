//! Calendar dates for the time axis that indicator results are laid against.

use vstd::prelude::*;
use chrono::Datelike;

verus! {

/// A calendar date in the machine's local time zone.
#[derive(Clone, Copy, Debug, PartialEq, Eq, Structural)]
pub struct LocalDate {
    pub year: i32,
    /// Month of the year, from 1.
    pub month: u32,
    /// Day of the month, from 1.
    pub day: u32,
}

impl LocalDate {
    /// Month and day lie in their calendar ranges.
    pub open spec fn wf(self) -> bool {
        &&& 1 <= self.month <= 12
        &&& 1 <= self.day <= 31
    }
}

/// Largest number of seconds, on either side of the Unix epoch, that is
/// converted to a date: well inside the years chrono can represent, with
/// room for any time-zone offset.
pub const MAX_EPOCH_SECONDS: i64 = 8_000_000_000_000;

/// Millisecond timestamps whose whole seconds stay within
/// `MAX_EPOCH_SECONDS` of the epoch.
pub open spec fn timestamp_in_range(timestamp_millis: int) -> bool {
    -(MAX_EPOCH_SECONDS * 1000 + 999) <= timestamp_millis <= MAX_EPOCH_SECONDS * 1000 + 999
}

/// Relies on chrono's `DateTime::from_timestamp`, `DateTime::with_timezone`
/// with `Local` and `DateTime::date_naive`: the local calendar date of the
/// instant `secs` seconds after the Unix epoch. The date depends on the
/// machine's time zone; chrono's `Datelike` documents the month as 1 to 12
/// and the day as 1 to 31. `from_timestamp` fails only outside chrono's
/// date range, which the bound on `secs` keeps clear of, even after the
/// local offset is added.
#[verifier::external_body]
fn local_date_of_epoch_seconds(secs: i64) -> (r: Option<LocalDate>)
    requires
        -MAX_EPOCH_SECONDS <= secs <= MAX_EPOCH_SECONDS,
    ensures
        r is Some,
        r matches Some(d) ==> d.wf(),
{
    match chrono::DateTime::from_timestamp(secs, 0) {
        Some(utc) => {
            let d = utc.with_timezone(&chrono::Local).date_naive();
            Some(LocalDate { year: d.year(), month: d.month(), day: d.day() })
        },
        None => None,
    }
}

/// The local calendar date of a millisecond Unix timestamp, truncated to
/// whole seconds; `None` for a timestamp outside the supported range.
pub fn timestamp_to_local_date(timestamp_millis: i64) -> (r: Option<LocalDate>)
    ensures
        r is Some <==> timestamp_in_range(timestamp_millis as int),
        r matches Some(d) ==> d.wf(),
{
    if timestamp_millis < -(MAX_EPOCH_SECONDS * 1000 + 999) || timestamp_millis > MAX_EPOCH_SECONDS
        * 1000 + 999 {
        return None;
    }
    let secs: i64 = timestamp_millis / 1000;
    local_date_of_epoch_seconds(secs)
}

} // verus!
