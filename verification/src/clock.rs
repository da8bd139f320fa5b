//! The wall clock, read as whole seconds since the Unix epoch.
use vstd::prelude::*;
use core::time::Duration;

verus! {

/// `std::time::SystemTime::elapsed` on the Unix epoch: the time elapsed since
/// 1970-01-01 by the system clock, or `None` where the clock reads earlier
/// than that. Nothing is claimed of the value: it is the time of the call.
#[verifier::external_body]
fn elapsed_since_epoch() -> Option<Duration> {
    std::time::UNIX_EPOCH.elapsed().ok()
}

/// `core::time::Duration::as_secs`: the whole seconds of a duration. A
/// `Duration` is opaque to these contracts, so no clause ties the count to it.
#[verifier::external_body]
fn whole_seconds(d: &Duration) -> u64 {
    d.as_secs()
}

/// The seconds a clock reading stands for: its whole seconds since the
/// epoch, or 0 where the clock read before the epoch.
pub fn epoch_seconds(reading: Option<u64>) -> (secs: u64)
    ensures
        secs == match reading {
            Some(s) => s,
            None => 0,
        },
{
    match reading {
        Some(s) => s,
        None => 0,
    }
}

/// Seconds since the Unix epoch by the system clock; 0 where the clock reads
/// before the epoch. What it returns depends on the time of the call alone.
pub fn now() -> u64 {
    let reading = match elapsed_since_epoch() {
        Some(d) => Some(whole_seconds(&d)),
        None => None,
    };
    epoch_seconds(reading)
}

} // verus!
