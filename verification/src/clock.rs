//! The one place the library reads the wall clock.
//!
//! Every stateful component has an `_at` variant taking the current time as
//! a plain argument; those are specified exactly. The clock-reading entry
//! points call [`now_millis`] and promise only what holds for every reading.

use vstd::prelude::*;

verus! {

/// Milliseconds since the Unix epoch, as the platform clock reports them.
///
/// Relies on `std::time::SystemTime::now` together with
/// `duration_since(UNIX_EPOCH)`; nothing can be promised about the value,
/// and a clock before the epoch is reported as zero.
#[verifier::external_body]
pub(crate) fn now_millis() -> u64 {
    match std::time::SystemTime::now().duration_since(std::time::UNIX_EPOCH) {
        Ok(d) => d.as_millis() as u64,
        Err(_) => 0,
    }
}

} // verus!
