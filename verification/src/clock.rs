//! The wall clock.

use std::time::{Duration, SystemTime, SystemTimeError};

use vstd::prelude::*;

verus! {

/// A point in time of the system clock.
#[verifier::external_type_specification]
#[verifier::external_body]
pub struct ExSystemTime(std::time::SystemTime);

/// What `SystemTime::duration_since` reports for an instant that lies before the other one.
#[verifier::external_type_specification]
#[verifier::external_body]
pub struct ExSystemTimeError(std::time::SystemTimeError);

/// Calls `SystemTime::now`. What the clock shows is not known, so nothing is claimed of it.
#[verifier::external_body]
fn current_time() -> (now: SystemTime) {
    SystemTime::now()
}

/// Calls `SystemTime::duration_since` with the Unix epoch. The time that has passed rests on the
/// clock, and so does whether the clock stands before the epoch: nothing is claimed of either.
#[verifier::external_body]
fn since_epoch(now: SystemTime) -> (elapsed: Result<Duration, SystemTimeError>) {
    now.duration_since(std::time::UNIX_EPOCH)
}

/// Calls `Duration::as_nanos`. A duration that was read off the clock is not known, so nothing is
/// claimed of its length.
#[verifier::external_body]
fn whole_nanos(elapsed: Duration) -> (ns: u128) {
    elapsed.as_nanos()
}

/// Nanoseconds since the Unix epoch as the system clock shows them. What it shows is not known;
/// [`reading_ns`] says what becomes of each reading.
pub fn now_ns() -> (ns: u128) {
    match since_epoch(current_time()) {
        Ok(elapsed) => reading_ns(Ok(whole_nanos(elapsed))),
        Err(error) => reading_ns(Err(error)),
    }
}

/// The time of a clock reading: the nanoseconds that have passed since the Unix epoch, and zero
/// where the clock stands before it.
pub fn reading_ns(reading: Result<u128, SystemTimeError>) -> (ns: u128)
    ensures
        reading matches Ok(elapsed_ns) ==> ns == elapsed_ns,
        reading is Err ==> ns == 0,
{
    match reading {
        Ok(elapsed_ns) => elapsed_ns,
        Err(_) => 0,
    }
}

} // verus!
