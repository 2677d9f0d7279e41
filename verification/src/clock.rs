//! The wall clock.

use vstd::prelude::*;

verus! {

/// Reads the system clock through `SystemTime::elapsed` on the Unix epoch and
/// gives the whole seconds since then, or nothing when the clock stands before
/// the epoch. Nothing is claimed of the value: it differs from call to call.
#[verifier::external_body]
pub(crate) fn seconds_since_epoch() -> (res: Option<u64>) {
    match std::time::UNIX_EPOCH.elapsed() {
        Ok(elapsed) => Some(elapsed.as_secs()),
        Err(_) => None,
    }
}

/// The time stamp for a reading of the clock: the seconds it gave, and zero
/// for a clock that stands before the epoch.
pub open spec fn spec_stamp_of(reading: Option<u64>) -> u64 {
    match reading {
        Some(seconds) => seconds,
        None => 0,
    }
}

/// The time stamp for a reading of the clock.
pub fn stamp_of(reading: Option<u64>) -> (res: u64)
    ensures
        res == spec_stamp_of(reading),
{
    match reading {
        Some(seconds) => seconds,
        None => 0,
    }
}

/// The current time in seconds since the epoch, zero when the clock stands
/// before it.
pub(crate) fn now() -> (res: u64) {
    stamp_of(seconds_since_epoch())
}

} // verus!
