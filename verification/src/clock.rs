//! Readings of the system clock.
use vstd::prelude::*;

verus! {

/// Nanoseconds elapsed since the Unix epoch, from `SystemTime::elapsed` on
/// `UNIX_EPOCH` (0 when the clock reads before the epoch). The reading depends on
/// the moment of the call, so nothing is promised of its value.
#[verifier::external_body]
pub fn unix_time_nanos() -> u128 {
    match std::time::UNIX_EPOCH.elapsed() {
        Ok(d) => d.as_nanos(),
        Err(_) => 0,
    }
}

/// Whole seconds elapsed since the Unix epoch, from `SystemTime::elapsed` on
/// `UNIX_EPOCH` (0 when the clock reads before the epoch). The reading depends on
/// the moment of the call, so nothing is promised of its value.
#[verifier::external_body]
pub fn unix_time_secs() -> u64 {
    match std::time::UNIX_EPOCH.elapsed() {
        Ok(d) => d.as_secs(),
        Err(_) => 0,
    }
}

} // verus!
