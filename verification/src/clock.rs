//! Wall-clock timestamps.
//!
//! The core models a moment in time as a number of non-leap seconds since the
//! Unix epoch, kept within [`MAX_TIMESTAMP`] so that calendar conversion is
//! always defined. Reading the clock and splitting a timestamp into calendar
//! fields are the only operations that need the outside world; everything
//! else works on the plain integer.

use vstd::prelude::*;

use chrono::Datelike;
use chrono::Timelike;

verus! {

/// The last second of year 9999, the largest timestamp the core works with.
pub const MAX_TIMESTAMP: i64 = 253402300799;

/// A timestamp the core accepts: non-negative and within calendar range.
pub open spec fn valid_ts(ts: i64) -> bool {
    0 <= ts <= MAX_TIMESTAMP
}

/// The calendar fields (year, month, day of month, hour of day) of a
/// timestamp, in UTC. They are a function of the timestamp alone; their
/// exact values come from the calendar wrapper below.
pub uninterp spec fn civil_of(ts: i64) -> (i32, u32, u32, u32);

/// Relies on std's `SystemTime::now` and `duration_since`: the current
/// wall-clock time as whole seconds since the Unix epoch, or nothing when
/// the system clock reads before the epoch. Nothing can be promised of the
/// value; the verified caller clamps it into range. The body is one
/// read-the-clock conversion chain and never panics.
#[verifier::external_body]
fn epoch_seconds() -> Option<u64> {
    match std::time::SystemTime::now().duration_since(std::time::UNIX_EPOCH) {
        Ok(elapsed) => Some(elapsed.as_secs()),
        Err(_) => None,
    }
}

/// Relies on chrono's `DateTime::from_timestamp` and the `Datelike` /
/// `Timelike` accessors `year`, `month`, `day` and `hour`: the calendar
/// fields of a timestamp depend on the timestamp alone, and conversion
/// succeeds for every timestamp in calendar range. The hour of day is plain
/// arithmetic on the timestamp (chrono counts non-leap seconds), so it is
/// stated directly; year, month and day take real calendar math and keep
/// only their name.
#[verifier::external_body]
pub(crate) fn civil_fields(ts: i64) -> (r: (i32, u32, u32, u32))
    requires
        valid_ts(ts),
    ensures
        r == civil_of(ts),
        r.3 == (ts / 3600) % 24,
{
    let dt = chrono::DateTime::<chrono::Utc>::from_timestamp(ts, 0).unwrap();
    (dt.year(), dt.month(), dt.day(), dt.hour())
}

/// The current wall-clock time, clamped into the range the core works with.
/// A clock before the Unix epoch reads as the epoch itself.
pub fn current_timestamp() -> (r: i64)
    ensures
        valid_ts(r),
{
    match epoch_seconds() {
        Some(secs) => {
            if secs > (MAX_TIMESTAMP as u64) {
                MAX_TIMESTAMP
            } else {
                secs as i64
            }
        },
        None => 0,
    }
}

} // verus!
