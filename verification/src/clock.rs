//! The wall clock, in whole seconds since the Unix epoch.

use vstd::prelude::*;

verus! {

/// Reads the system clock with `std::time::SystemTime::now` and gives the
/// whole seconds since the Unix epoch, or `None` where the clock stands
/// before the epoch. Nothing is claimed of the value: two readings may
/// differ in either direction.
#[verifier::external_body]
fn unix_seconds() -> (reading: Option<u64>) {
    std::time::SystemTime::now().duration_since(std::time::UNIX_EPOCH).ok().map(|d| d.as_secs())
}

/// The current time in seconds since the Unix epoch. A clock set before the
/// epoch reads as 0.
pub fn current_time() -> (now: u64) {
    seconds_of(unix_seconds())
}

/// What a reading of the clock counts as: the seconds read, or 0 for a clock
/// that stands before the epoch.
pub open spec fn reading_value(reading: Option<u64>) -> u64 {
    match reading {
        Some(seconds) => seconds,
        None => 0,
    }
}

/// Turns a reading of the clock into a time.
pub fn seconds_of(reading: Option<u64>) -> (now: u64)
    ensures
        now == reading_value(reading),
{
    match reading {
        Some(seconds) => seconds,
        None => 0,
    }
}

} // verus!
