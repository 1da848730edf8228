//! The system clock.

use vstd::prelude::*;

verus! {

/// Whole seconds since the Unix epoch by `SystemTime::now()`, or 0 when the
/// clock is before the epoch. The value depends on the time of the call, so
/// nothing is claimed of it.
#[verifier::external_body]
pub(crate) fn unix_time_secs() -> u64 {
    match std::time::SystemTime::now().duration_since(std::time::UNIX_EPOCH) {
        Ok(d) => d.as_secs(),
        Err(_) => 0,
    }
}

} // verus!
