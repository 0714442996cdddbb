//! Trusted binding to the wall clock.

use vstd::prelude::*;

verus! {

/// Relies on `std::time::SystemTime::{now, duration_since}`: seconds since
/// the Unix epoch, or 0 when the clock reads before the epoch.  Nothing is
/// assumed of the value beyond its sign.
#[verifier::external_body]
pub fn now_unix() -> (r: i64)
    ensures
        r >= 0,
{
    match std::time::SystemTime::now().duration_since(std::time::UNIX_EPOCH) {
        Ok(d) => {
            let secs = d.as_secs();
            if secs > i64::MAX as u64 {
                i64::MAX
            } else {
                secs as i64
            }
        },
        Err(_) => 0,
    }
}

} // verus!
