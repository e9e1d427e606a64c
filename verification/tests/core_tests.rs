use m_v_r_esprint1::deterministic_core::{DetMap, DetRng};
use m_v_r_esprint1::telemetry::{decode_double_bit_breaker, BreakerState};

#[test]
fn detmap_basic() {
    let mut m = DetMap::new();
    m.insert(2, "b");
    m.insert(1, "a");
    let keys: Vec<_> = m.iter().iter().map(|(k, _)| **k).collect();
    assert_eq!(keys, vec![1, 2]);
}

#[test]
fn rng_repro() {
    let mut a = DetRng::seeded(42);
    let mut b = DetRng::seeded(42);
    assert_eq!(a.next_u64(), b.next_u64());
    assert_eq!(a.next_u32(), b.next_u32());
}

#[test]
fn double_bit_breaker_states_decode() {
    assert_eq!(decode_double_bit_breaker(0b00), Some(BreakerState::Intermediate));
    assert_eq!(decode_double_bit_breaker(0b01), Some(BreakerState::Closed));
    assert_eq!(decode_double_bit_breaker(0b10), Some(BreakerState::Open));
    assert_eq!(decode_double_bit_breaker(0b11), Some(BreakerState::BadState));
}
