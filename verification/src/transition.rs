//! L7 transition signalling: the opcode and the 16-byte packet that announces an
//! external transition. Sending it is the caller's part.
use vstd::prelude::*;
use crate::bytes::{le_bytes, lemma_le_bytes_len, u32_le_bytes, u64_le_bytes};

verus! {

/// The opcodes of transition packets.
#[derive(Debug, Clone, Copy, PartialEq, Eq, Structural)]
pub enum TransitionOpcode {
    ExternalTransitionSignal,
}

/// The byte that stands for an opcode on the wire.
pub open spec fn opcode_value(op: TransitionOpcode) -> u8 {
    match op {
        TransitionOpcode::ExternalTransitionSignal => 0xE7,
    }
}

impl TransitionOpcode {
    /// The byte that stands for this opcode on the wire.
    pub fn code(&self) -> (b: u8)
        ensures
            b == opcode_value(*self),
    {
        match self {
            TransitionOpcode::ExternalTransitionSignal => 0xE7,
        }
    }
}

/// The protocol version that transition packets carry.
pub const TRANSITION_PROTOCOL_VERSION: u8 = 1;

/// The sum of some bytes, wrapping at 32 bits.
pub open spec fn wrapping_byte_sum(b: Seq<u8>) -> u32
    decreases b.len(),
{
    if b.len() == 0 {
        0
    } else {
        vstd::wrapping::u32_specs::wrapping_add(wrapping_byte_sum(b.drop_last()), b.last() as u32)
    }
}

/// The first 12 bytes of a transition packet: opcode, version, reason (2 bytes) and
/// tick (8 bytes), numbers little-endian.
pub open spec fn transition_header(tick: u64, reason_code: u16) -> Seq<u8> {
    seq![opcode_value(TransitionOpcode::ExternalTransitionSignal), TRANSITION_PROTOCOL_VERSION] + le_bytes(
        reason_code as nat,
        2,
    ) + le_bytes(tick as nat, 8)
}

/// The packet that announces an external transition: the header, then the wrapping
/// 32-bit sum of its bytes, little-endian.
pub open spec fn transition_packet_spec(tick: u64, reason_code: u16) -> Seq<u8> {
    transition_header(tick, reason_code) + le_bytes(wrapping_byte_sum(transition_header(tick, reason_code)) as nat, 4)
}

/// Builds the packet that announces an external transition.
pub fn transition_packet(tick: u64, reason_code: u16) -> (p: Vec<u8>)
    ensures
        p@ == transition_packet_spec(tick, reason_code),
        p@.len() == 16,
{
    let mut p: Vec<u8> = Vec::new();
    p.push(TransitionOpcode::ExternalTransitionSignal.code());
    p.push(TRANSITION_PROTOCOL_VERSION);
    let r = (reason_code % 256) as u8;
    let r2 = (reason_code / 256) as u8;
    p.push(r);
    p.push(r2);
    proof {
        assert(le_bytes(reason_code as nat, 2) == seq![r, r2]) by {
            reveal_with_fuel(le_bytes, 3);
        }
    }
    let t = u64_le_bytes(tick);
    proof {
        lemma_le_bytes_len(tick as nat, 8);
    }
    let mut i: usize = 0;
    let ghost base = p@;
    while i < 8
        invariant
            i <= 8,
            t@ == le_bytes(tick as nat, 8),
            p@ == base + t@.take(i as int),
            t@.len() == 8,
        decreases 8 - i,
    {
        p.push(t[i]);
        assert(t@.take(i + 1) == t@.take(i as int).push(t@[i as int]));
        i = i + 1;
    }
    assert(t@.take(8) == t@);
    assert(p@ == transition_header(tick, reason_code));
    let mut crc: u32 = 0;
    let mut k: usize = 0;
    while k < 12
        invariant
            k <= 12,
            p@ == transition_header(tick, reason_code),
            p@.len() == 12,
            crc == wrapping_byte_sum(p@.take(k as int)),
        decreases 12 - k,
    {
        assert(p@.take(k + 1).drop_last() == p@.take(k as int));
        crc = crc.wrapping_add(p[k] as u32);
        k = k + 1;
    }
    assert(p@.take(12) == p@);
    let c = u32_le_bytes(crc);
    proof {
        lemma_le_bytes_len(crc as nat, 4);
    }
    let ghost header = p@;
    let mut j: usize = 0;
    while j < 4
        invariant
            j <= 4,
            c@.len() == 4,
            p@ == header + c@.take(j as int),
        decreases 4 - j,
    {
        p.push(c[j]);
        assert(c@.take(j + 1) == c@.take(j as int).push(c@[j as int]));
        j = j + 1;
    }
    assert(c@.take(4) == c@);
    p
}

} // verus!
