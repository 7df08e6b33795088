//! Expiry policy: every record written under it is eligible for removal a fixed
//! window after the moment of the write.

use vstd::prelude::*;

verus! {

/// Seconds between the write of a record and its expiry.
pub const EXPIRY_WINDOW_SECS: u64 = 600;

/// The expiry, in epoch seconds, of a record written at `now`.
pub open spec fn expiry_after(now: int) -> int {
    now + EXPIRY_WINDOW_SECS
}

/// Computes the expiry of a record written at `now`, or `None` when that moment
/// lies so far ahead that the expiry no longer fits in 64 bits.
pub fn expiry_at(now: u64) -> (expiry: Option<u64>)
    ensures
        expiry_after(now as int) <= u64::MAX ==> expiry == Some(expiry_after(now as int) as u64),
        expiry_after(now as int) > u64::MAX ==> expiry.is_none(),
        expiry matches Some(at) ==> at > now,
{
    now.checked_add(EXPIRY_WINDOW_SECS)
}

} // verus!
