//! The one sanctioned read of the host wall clock, and the conversions of such a
//! reading into the units the library hands out.
use vstd::prelude::*;
use std::time::{SystemTime, UNIX_EPOCH};

verus! {

/// The largest nanosecond count a `Duration` holds: `u64::MAX` whole seconds and
/// 999_999_999 nanoseconds.
pub const DURATION_MAX_NANOS: u128 = 18_446_744_073_709_551_615_999_999_999u128;

/// `SystemTime::now()` as nanoseconds since the Unix epoch
/// (`duration_since(UNIX_EPOCH)` then `as_nanos`), or the text of std's error when
/// the clock reads before the epoch. The reading depends on the host clock, so
/// nothing is stated of its value beyond the range of a `Duration` (whole seconds are
/// a `u64`, the fraction is under one second), nor of the error's text.
#[verifier::external_body]
pub(crate) fn unix_time_nanos() -> (r: Result<u128, String>)
    ensures
        r matches Ok(n) ==> n <= DURATION_MAX_NANOS,
{
    SystemTime::now().duration_since(UNIX_EPOCH).map(|d| d.as_nanos()).map_err(|e| e.to_string())
}

/// A clock reading with its error dropped: `None` when the clock read before the epoch.
pub fn clock_reading(r: Result<u128, String>) -> (o: Option<u128>)
    ensures
        o == (match r {
            Ok(n) => Some(n),
            Err(_) => None::<u128>,
        }),
{
    match r {
        Ok(n) => Some(n),
        Err(_) => None,
    }
}

/// Whole microseconds of a clock reading, truncated to 64 bits as `as u64` does;
/// 0 when there is no reading.
pub open spec fn reading_micros(reading: Option<u128>) -> u64 {
    match reading {
        Some(n) => (n / 1000) as u64,
        None => 0,
    }
}

/// Whole microseconds of a clock reading (`reading_micros`).
pub fn micros_of_reading(reading: Option<u128>) -> (us: u64)
    ensures
        us == reading_micros(reading),
{
    match reading {
        Some(n) => {
            let micros = n / 1000;
            #[verifier::truncate]
            (micros as u64)
        },
        None => 0,
    }
}

/// A clock reading in nanoseconds, capped at `u64::MAX`; 0 when there is no reading.
pub open spec fn reading_nanos_capped(reading: Option<u128>) -> u64 {
    match reading {
        Some(n) => if n > u64::MAX { u64::MAX } else { n as u64 },
        None => 0,
    }
}

/// A clock reading in nanoseconds, capped at `u64::MAX` (`reading_nanos_capped`).
pub fn nanos_of_reading_capped(reading: Option<u128>) -> (ns: u64)
    ensures
        ns == reading_nanos_capped(reading),
{
    match reading {
        Some(n) => if n > 0xffff_ffff_ffff_ffffu128 {
            0xffff_ffff_ffff_ffffu64
        } else {
            n as u64
        },
        None => 0,
    }
}

} // verus!
