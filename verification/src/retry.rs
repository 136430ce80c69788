//! When a failed registry request is tried again.

use vstd::prelude::*;

verus! {

/// The pause, in milliseconds, after attempt `attempt` (counted from 1) of
/// `attempts` failed: 250 ms times the attempt number before the next
/// attempt, none after the last attempt.
pub fn retry_delay_ms(attempt: u8, attempts: u8) -> (r: Option<u64>)
    ensures
        attempt < attempts ==> (r matches Some(ms) && ms == 250 * attempt),
        attempt >= attempts ==> r is None,
{
    if attempt < attempts {
        Some(250 * (attempt as u64))
    } else {
        None
    }
}

} // verus!
