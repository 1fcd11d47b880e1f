//! The wall clock.

use vstd::prelude::*;

verus! {

/// The whole milliseconds of a reading of seconds and nanoseconds, if they fit a `u64`.
///
/// A reading is absent where the clock stands before the Unix epoch.
pub open spec fn milliseconds_of(reading: Option<(u64, u32)>) -> Option<u64> {
    match reading {
        Some((seconds, nanoseconds)) => {
            let milliseconds = seconds * 1000 + nanoseconds as int / 1_000_000;
            if milliseconds <= u64::MAX {
                Some(milliseconds as u64)
            } else {
                None
            }
        },
        None => None,
    }
}

/// `std::time::SystemTime::elapsed` of the Unix epoch: the time from the epoch to now, as whole
/// seconds and the nanoseconds of the last, unfinished second; nothing where the system clock
/// stands before the epoch. What the clock shows is not known beforehand.
#[verifier::external_body]
fn elapsed_since_unix_epoch() -> (reading: Option<(u64, u32)>)
    ensures
        reading matches Some(parts) ==> parts.1 < 1_000_000_000,
{
    match std::time::UNIX_EPOCH.elapsed() {
        Ok(elapsed) => Some((elapsed.as_secs(), elapsed.subsec_nanos())),
        Err(_) => None,
    }
}

/// Turns a reading of the wall clock into milliseconds.
pub fn unix_milliseconds(reading: Option<(u64, u32)>) -> (result: Option<u64>)
    ensures
        result == milliseconds_of(reading),
{
    match reading {
        Some((seconds, nanoseconds)) => {
            let milliseconds: u128 = seconds as u128 * 1000 + (nanoseconds / 1_000_000) as u128;
            if milliseconds <= u64::MAX as u128 {
                Some(milliseconds as u64)
            } else {
                None
            }
        },
        None => None,
    }
}

/// The milliseconds since the Unix epoch, by the system clock.
///
/// There is no result where the clock stands before the epoch, or so far after it that the
/// milliseconds do not fit a `u64`.
pub fn current_unix_milliseconds() -> (result: Option<u64>)
    ensures
        exists|reading: Option<(u64, u32)>| result == #[trigger] milliseconds_of(reading),
{
    let reading = elapsed_since_unix_epoch();
    unix_milliseconds(reading)
}

} // verus!
