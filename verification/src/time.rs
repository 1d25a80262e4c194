//! File ages and the thresholds they are held against.

use vstd::prelude::*;
use crate::text::{NumberError, chars_of, parse_number, parsed_number};

verus! {

/// Nanoseconds in one second.
pub const NANOS_PER_SECOND: u32 = 1_000_000_000;

/// Seconds in one day.
pub const SECONDS_PER_DAY: u64 = 86400;

/// A point in time: `secs` whole seconds after the Unix epoch (before it,
/// where negative), and `nanos` nanoseconds after that.
#[derive(Clone, Copy, Debug)]
pub struct Timestamp {
    pub secs: i64,
    pub nanos: u32,
}

impl Timestamp {
    /// The point in time as nanoseconds after the Unix epoch.
    pub open spec fn instant(self) -> int {
        self.secs * NANOS_PER_SECOND + self.nanos
    }

    /// The point in time `secs` seconds and `nanos` nanoseconds after the
    /// Unix epoch.
    pub fn new(secs: i64, nanos: u32) -> (t: Timestamp)
        ensures
            t.secs == secs,
            t.nanos == nanos,
            t.instant() == secs * NANOS_PER_SECOND + nanos,
    {
        Timestamp { secs, nanos }
    }
}

/// Whether a file whose time is `observed` is old enough at `now`: a
/// threshold of zero asks nothing; otherwise more than `min_seconds` seconds
/// must have passed, by however little, and a time after `now` never passes.
pub open spec fn passes(now: Timestamp, min_seconds: u64, observed: Timestamp) -> bool {
    min_seconds == 0 || (observed.instant() <= now.instant() && now.instant() - observed.instant()
        > min_seconds * NANOS_PER_SECOND)
}

/// Checks one time of a file against its threshold.
pub fn meets_time_condition(now: Timestamp, min_value: u64, actual_value: Timestamp) -> (met: bool)
    ensures
        met == passes(now, min_value, actual_value),
{
    if min_value == 0 {
        return true;
    }
    let current: i128 = now.secs as i128 * 1_000_000_000 + now.nanos as i128;
    let actual: i128 = actual_value.secs as i128 * 1_000_000_000 + actual_value.nanos as i128;
    if actual > current {
        return false;
    }
    current - actual > min_value as i128 * 1_000_000_000
}

/// A threshold of `days` days in seconds, where that fits.
pub open spec fn seconds_of_days(days: u64) -> Option<u64> {
    if days * SECONDS_PER_DAY <= u64::MAX {
        Some((days * SECONDS_PER_DAY) as u64)
    } else {
        None
    }
}

/// Converts a threshold given in days to seconds; `None` where the seconds
/// do not fit.
pub fn days_to_seconds(days: u64) -> (seconds: Option<u64>)
    ensures
        seconds == seconds_of_days(days),
{
    days.checked_mul(SECONDS_PER_DAY)
}

/// The number of days that the text of a threshold asks for. A threshold
/// that was not given asks for none.
pub open spec fn days_of(value: Option<Seq<char>>) -> Result<nat, NumberError> {
    match value {
        Some(text) => parsed_number(text, u64::MAX as nat),
        None => Ok(0nat),
    }
}

/// Reads a threshold in days as it was given on the command line, if it was
/// given at all.
pub fn parse_time_condition(value: Option<&str>) -> (days: Result<u64, NumberError>)
    ensures
        days matches Ok(count) ==> days_of(
            match value {
                Some(text) => Some(text@),
                None => None,
            },
        ) == Ok::<nat, NumberError>(count as nat),
        days matches Err(error) ==> days_of(
            match value {
                Some(text) => Some(text@),
                None => None,
            },
        ) == Err::<nat, NumberError>(error),
{
    match value {
        Some(text) => {
            let chars = chars_of(text);
            parse_number(&chars, u64::MAX)
        },
        None => Ok(0),
    }
}

} // verus!
