//! A PTP-disciplined clock reading that never goes backwards.
use vstd::prelude::*;
use crate::clock::{unix_time_nanos, clock_reading, micros_of_reading};
use crate::failure_axis::SystemHalt;

verus! {

/// A clock that hands out strictly increasing readings.
#[derive(Debug)]
pub struct PtpClock {
    last_us: u64,
}

impl Default for PtpClock {
    fn default() -> (c: Self)
        ensures
            c.last_reading() == 0,
    {
        PtpClock { last_us: 0 }
    }
}

/// The reading handed out after `prev` when the clock observes `observed`: the later
/// of the two, and at least one past `prev` (staying at `u64::MAX` once there).
pub open spec fn next_reading(prev: u64, observed: u64) -> u64 {
    let bumped: u64 = if prev == u64::MAX { prev } else { (prev + 1) as u64 };
    if observed > bumped { observed } else { bumped }
}

/// The reading handed out after `prev` when the clock observes `observed`.
pub fn next_reading_after(prev: u64, observed: u64) -> (n: u64)
    ensures
        n == next_reading(prev, observed),
{
    let bumped = prev.saturating_add(1);
    if observed > bumped { observed } else { bumped }
}

impl PtpClock {
    /// The last reading handed out (0 before the first).
    pub closed spec fn last_reading(&self) -> u64 {
        self.last_us
    }

    /// A clock that has handed out nothing yet.
    pub fn new() -> (c: Self)
        ensures
            c.last_reading() == 0,
    {
        PtpClock { last_us: 0 }
    }

    /// Hands out the reading that follows the last one when the clock observes
    /// `observed_us` (`next_reading`), and records it as the last reading.
    pub fn advance(&mut self, observed_us: u64) -> (n: u64)
        ensures
            n == next_reading(old(self).last_reading(), observed_us),
            final(self).last_reading() == n,
    {
        let next = next_reading_after(self.last_us, observed_us);
        self.last_us = next;
        next
    }

    /// A microsecond timestamp: the wall clock read once, in whole microseconds since
    /// the Unix epoch (`micros_of_reading`), passed through `advance`. It never fails;
    /// the timestamp is at least the wall reading and later than the one before until
    /// `u64::MAX`. The wall reading depends on the host clock.
    pub fn read_micros(&mut self) -> (r: Result<u64, SystemHalt>)
        ensures
            r matches Ok(n) && n == final(self).last_reading()
                && exists|w: u64| n == next_reading(old(self).last_reading(), w),
            old(self).last_reading() < u64::MAX ==> final(self).last_reading() > old(self).last_reading(),
    {
        let observed = micros_of_reading(clock_reading(unix_time_nanos()));
        let next = self.advance(observed);
        Ok(next)
    }
}

} // verus!
