//! The time of day.

use vstd::prelude::*;

verus! {

/// `SystemTime::elapsed` since the epoch, in milliseconds; nothing if the clock
/// stands before the epoch. Nothing is promised of the time itself.
#[verifier::external_body]
pub(crate) fn since_epoch_ms() -> (r: Option<u128>) {
    std::time::SystemTime::UNIX_EPOCH.elapsed().ok().map(|d| d.as_millis())
}

/// Milliseconds since the epoch as they are stored: cut to 64 bits, and zero
/// for a clock before the epoch.
pub fn epoch_ms(elapsed_ms: Option<u128>) -> (r: i64)
    ensures
        r == (match elapsed_ms {
            Some(ms) => ms as i64,
            None => 0,
        }),
{
    match elapsed_ms {
        Some(ms) => #[verifier::truncate] (ms as i64),
        None => 0,
    }
}

/// The time in milliseconds since the epoch.
pub fn now_ms() -> (r: i64) {
    epoch_ms(since_epoch_ms())
}

/// A time that fits into 64 bits is stored as it is.
pub proof fn times_are_stored_as_they_are(elapsed_ms: Option<u128>, r: i64)
    requires
        call_ensures(epoch_ms, (elapsed_ms,), r),
    ensures
        elapsed_ms is None ==> r == 0,
        elapsed_ms is Some && elapsed_ms->0 <= i64::MAX ==> r == elapsed_ms->0,
{
}


} // verus!
