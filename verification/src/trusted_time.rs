//! Trusted time: readings of a time source, and an authority that never hands out
//! the same monotonic reading twice.
use vstd::prelude::*;
use crate::clock::{unix_time_nanos, clock_reading, nanos_of_reading_capped, reading_nanos_capped};

verus! {

/// Where a time reading comes from.
#[derive(Debug, Clone, Copy, PartialEq, Eq, Structural)]
pub enum TimeSource {
    PTP,
    GPS,
    NTP,
    LOCAL,
}

impl Default for TimeSource {
    fn default() -> (s: Self)
        ensures
            s == TimeSource::LOCAL,
    {
        TimeSource::LOCAL
    }
}

/// One time reading.
#[derive(Debug, Clone, Copy, PartialEq, Eq, Structural)]
pub struct TrustedTime {
    pub wall_time_ns: u64,
    pub monotonic_ns: u64,
    pub source: TimeSource,
    pub uncertainty_ns: u64,
}

impl Default for TrustedTime {
    fn default() -> (t: Self)
        ensures
            t == (TrustedTime { wall_time_ns: 0, monotonic_ns: 0, source: TimeSource::LOCAL, uncertainty_ns: 0 }),
    {
        TrustedTime { wall_time_ns: 0, monotonic_ns: 0, source: TimeSource::LOCAL, uncertainty_ns: 0 }
    }
}

/// A source of raw time readings.
pub trait TimeProvider {
    fn now_raw(&self) -> TrustedTime;
}

/// The host clock, read as nanoseconds since the Unix epoch.
pub struct SystemTimeProvider;

/// The uncertainty that host-clock readings carry: one millisecond.
pub const SYSTEM_UNCERTAINTY_NS: u64 = 1_000_000;

impl SystemTimeProvider {
    /// The reading of a host-clock value (nanoseconds since the Unix epoch, `None`
    /// before the epoch): wall and monotonic time alike, capped at `u64::MAX`
    /// nanoseconds and 0 when there is no reading, from the local source with
    /// `SYSTEM_UNCERTAINTY_NS`.
    pub fn reading_from_clock(reading: Option<u128>) -> (t: TrustedTime)
        ensures
            t == (TrustedTime {
                wall_time_ns: reading_nanos_capped(reading),
                monotonic_ns: reading_nanos_capped(reading),
                source: TimeSource::LOCAL,
                uncertainty_ns: SYSTEM_UNCERTAINTY_NS,
            }),
    {
        let ns = nanos_of_reading_capped(reading);
        TrustedTime { wall_time_ns: ns, monotonic_ns: ns, source: TimeSource::LOCAL, uncertainty_ns: SYSTEM_UNCERTAINTY_NS }
    }
}

impl TimeProvider for SystemTimeProvider {
    /// The host clock read once and passed through `reading_from_clock`; its value
    /// depends on the host clock.
    fn now_raw(&self) -> (t: TrustedTime)
        ensures
            t.wall_time_ns == t.monotonic_ns,
            t.source == TimeSource::LOCAL,
            t.uncertainty_ns == SYSTEM_UNCERTAINTY_NS,
    {
        SystemTimeProvider::reading_from_clock(clock_reading(unix_time_nanos()))
    }
}

/// The monotonic reading handed out after `prev`: the raw one when it is later, else
/// one past `prev` (staying at `u64::MAX` once there).
pub open spec fn next_monotonic(prev: u64, raw: u64) -> u64 {
    if raw <= prev {
        if prev == u64::MAX { prev } else { (prev + 1) as u64 }
    } else {
        raw
    }
}

/// A raw reading with its monotonic part moved past `prev` (`next_monotonic`).
pub fn stamp_monotonic(prev: u64, raw: TrustedTime) -> (t: TrustedTime)
    ensures
        t == (TrustedTime { monotonic_ns: next_monotonic(prev, raw.monotonic_ns), ..raw }),
{
    let monotonic = if raw.monotonic_ns <= prev {
        prev.saturating_add(1)
    } else {
        raw.monotonic_ns
    };
    TrustedTime {
        wall_time_ns: raw.wall_time_ns,
        monotonic_ns: monotonic,
        source: raw.source,
        uncertainty_ns: raw.uncertainty_ns,
    }
}

/// Hands out time readings whose monotonic part strictly increases.
pub struct TrustedTimeAuthority<P: TimeProvider> {
    provider: P,
    last_monotonic: u64,
}

impl<P: TimeProvider> TrustedTimeAuthority<P> {
    /// The last monotonic reading handed out (0 before the first).
    pub closed spec fn last_issued(&self) -> u64 {
        self.last_monotonic
    }

    /// An authority that has handed out nothing yet.
    pub fn new(provider: P) -> (a: Self)
        ensures
            a.last_issued() == 0,
    {
        TrustedTimeAuthority { provider, last_monotonic: 0 }
    }

    /// A reading from the provider, passed through `stamp_monotonic` with the last
    /// monotonic reading: whatever the provider returns, the result's monotonic time is
    /// at least the last one, and later than it until `u64::MAX` is reached.
    pub fn now(&mut self) -> (t: TrustedTime)
        ensures
            t.monotonic_ns == final(self).last_issued(),
            t.monotonic_ns >= old(self).last_issued(),
            old(self).last_issued() < u64::MAX ==> t.monotonic_ns > old(self).last_issued(),
    {
        let raw = self.provider.now_raw();
        let t = stamp_monotonic(self.last_monotonic, raw);
        self.last_monotonic = t.monotonic_ns;
        t
    }
}

/// Whether `curr` may follow `prev` in a chain: its monotonic time is strictly later.
pub open spec fn time_in_sequence(prev: TrustedTime, curr: TrustedTime) -> bool {
    curr.monotonic_ns > prev.monotonic_ns
}

/// Checks that `curr` follows `prev` in monotonic time; a reading that is not later is
/// a time reversal.
pub fn verify_time_sequence(prev: &TrustedTime, curr: &TrustedTime) -> (r: Result<(), String>)
    ensures
        r is Ok <==> time_in_sequence(*prev, *curr),
        r matches Err(e) ==> e@ == "ERR_TIME_REVERSAL"@,
{
    if curr.monotonic_ns <= prev.monotonic_ns {
        return Err("ERR_TIME_REVERSAL".to_string());
    }
    Ok(())
}

/// Two readings that an authority hands out one after the other (the second's
/// monotonic time is the one `now` gives after the first) pass the time-sequence
/// check, unless the first already reached `u64::MAX`.
pub proof fn lemma_successive_readings_in_sequence(first: TrustedTime, raw: TrustedTime)
    requires
        first.monotonic_ns < u64::MAX,
    ensures
        time_in_sequence(first, TrustedTime { monotonic_ns: next_monotonic(first.monotonic_ns, raw.monotonic_ns), ..raw }),
{
}

} // verus!
