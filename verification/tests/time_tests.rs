use m_v_r_esprint1::canonical_time::CanonicalTime;
use m_v_r_esprint1::ptp_clock::{next_reading_after, PtpClock};
use m_v_r_esprint1::trusted_time::{
    stamp_monotonic, verify_time_sequence, SystemTimeProvider, TimeProvider, TimeSource,
    TrustedTime, TrustedTimeAuthority,
};

struct FixedProvider(u64);

impl TimeProvider for FixedProvider {
    fn now_raw(&self) -> TrustedTime {
        TrustedTime {
            wall_time_ns: self.0,
            monotonic_ns: self.0,
            source: TimeSource::PTP,
            uncertainty_ns: 5,
        }
    }
}

fn reading(mono: u64) -> TrustedTime {
    TrustedTime { wall_time_ns: 7, monotonic_ns: mono, source: TimeSource::GPS, uncertainty_ns: 1 }
}

#[test]
fn canonical_time_keeps_millis() {
    assert_eq!(CanonicalTime::from_millis(1_700_000_000_123).0, 1_700_000_000_123);
}

#[test]
fn stamp_keeps_later_raw_reading() {
    let t = stamp_monotonic(10, reading(25));
    assert_eq!(t.monotonic_ns, 25);
    assert_eq!(t.wall_time_ns, 7);
    assert_eq!(t.source, TimeSource::GPS);
}

#[test]
fn stamp_bumps_stale_raw_reading() {
    assert_eq!(stamp_monotonic(10, reading(10)).monotonic_ns, 11);
    assert_eq!(stamp_monotonic(10, reading(3)).monotonic_ns, 11);
    assert_eq!(stamp_monotonic(u64::MAX, reading(3)).monotonic_ns, u64::MAX);
}

#[test]
fn authority_never_repeats_a_reading() {
    let mut authority = TrustedTimeAuthority::new(FixedProvider(100));
    let a = authority.now();
    let b = authority.now();
    let c = authority.now();
    assert_eq!(a.monotonic_ns, 100);
    assert_eq!(b.monotonic_ns, 101);
    assert_eq!(c.monotonic_ns, 102);
    assert!(verify_time_sequence(&a, &b).is_ok());
    assert!(verify_time_sequence(&b, &c).is_ok());
}

#[test]
fn system_authority_readings_are_in_sequence() {
    let mut authority = TrustedTimeAuthority::new(SystemTimeProvider);
    let a = authority.now();
    let b = authority.now();
    assert!(b.monotonic_ns > a.monotonic_ns);
    assert_eq!(SystemTimeProvider.now_raw().source, TimeSource::LOCAL);
}

#[test]
fn time_reversal_is_refused() {
    assert_eq!(verify_time_sequence(&reading(5), &reading(5)), Err("ERR_TIME_REVERSAL".to_string()));
    assert_eq!(verify_time_sequence(&reading(6), &reading(5)), Err("ERR_TIME_REVERSAL".to_string()));
    assert_eq!(verify_time_sequence(&reading(5), &reading(6)), Ok(()));
}

#[test]
fn trusted_time_default_is_local_zero() {
    let t = TrustedTime::default();
    assert_eq!(t.monotonic_ns, 0);
    assert_eq!(t.source, TimeSource::LOCAL);
}

#[test]
fn ptp_reading_moves_forward() {
    assert_eq!(next_reading_after(10, 50), 50);
    assert_eq!(next_reading_after(10, 5), 11);
    assert_eq!(next_reading_after(u64::MAX, 5), u64::MAX);
    let mut clock = PtpClock::new();
    let a = clock.read_micros().unwrap();
    let b = clock.read_micros().unwrap();
    assert!(b > a);
}
