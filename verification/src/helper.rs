//! Clock access. The current time is read through trusted wrappers; the
//! result depends on the moment of the call, so nothing is promised of it.

use vstd::prelude::*;

verus! {

/// Relies on std's `SystemTime::now` and `duration_since`: milliseconds
/// since the Unix epoch. The result depends on the clock; nothing is
/// promised of it.
#[verifier::external_body]
pub fn time_since_unix_epoch() -> (r: u128)
{
    match std::time::SystemTime::now().duration_since(std::time::UNIX_EPOCH) {
        Ok(d) => d.as_millis(),
        Err(_) => 0,
    }
}

/// Relies on std's `SystemTime::now` and `duration_since`: milliseconds
/// since the Unix epoch, truncated to 64 bits. The result depends on the
/// clock; nothing is promised of it.
#[verifier::external_body]
pub fn create_timestamp() -> (r: u64)
{
    match std::time::SystemTime::now().duration_since(std::time::UNIX_EPOCH) {
        Ok(d) => d.as_millis() as u64,
        Err(_) => 0,
    }
}

} // verus!
