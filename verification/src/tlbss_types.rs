//! Binary substrate values and the substrate node.
use vstd::prelude::*;
use crate::failure_axis::{FailureAxis, SystemHalt};

verus! {

/// A binary state, stored as the byte 0 or 1.
#[derive(Clone, Copy, Debug, PartialEq, Eq, Structural)]
pub enum BinaryState {
    Zero,
    One,
}

impl BinaryState {
    /// Reads a binary state; any byte other than 0 and 1 is an invariant breach.
    pub fn from_u8(value: u8) -> (r: Result<Self, SystemHalt>)
        ensures
            value == 0 ==> r == Ok::<BinaryState, SystemHalt>(BinaryState::Zero),
            value == 1 ==> r == Ok::<BinaryState, SystemHalt>(BinaryState::One),
            value > 1 ==> (r matches Err(h) && h.axis == FailureAxis::InternalInvariantBreach
                && h.message@ == "Invalid BinaryState"@),
    {
        match value {
            0 => Ok(BinaryState::Zero),
            1 => Ok(BinaryState::One),
            _ => Err(SystemHalt::new(FailureAxis::InternalInvariantBreach, "Invalid BinaryState")),
        }
    }

    /// The byte of a binary state.
    pub fn as_u8(self) -> (b: u8)
        ensures
            b == (if self == BinaryState::Zero { 0u8 } else { 1u8 }),
    {
        match self {
            BinaryState::Zero => 0,
            BinaryState::One => 1,
        }
    }
}

/// The mask applied to a raw signal.
pub const SIGNAL_MASK: u8 = 0x5A;

/// A substrate node: its accumulated charge, masked input signal, stability
/// counter and up to three attached entities.
#[derive(Debug)]
pub struct SubstrateNode {
    pub charge: u64,
    pub masked_signal: u8,
    pub stable_ticks: u8,
    pub entity_a: Option<Box<SubstrateNode>>,
    pub entity_b: Option<Box<SubstrateNode>>,
    pub entity_c: Option<Box<SubstrateNode>>,
}

impl Clone for SubstrateNode {
    fn clone(&self) -> (c: Self)
        ensures
            c == *self,
    {
        self.deep_copy()
    }
}

impl SubstrateNode {
    /// A deep copy of the node and its attached entities.
    fn deep_copy(&self) -> (c: Self)
        ensures
            c == *self,
        decreases self,
    {
        SubstrateNode {
            charge: self.charge,
            masked_signal: self.masked_signal,
            stable_ticks: self.stable_ticks,
            entity_a: match &self.entity_a {
                Some(e) => Some(Box::new(e.deep_copy())),
                None => None,
            },
            entity_b: match &self.entity_b {
                Some(e) => Some(Box::new(e.deep_copy())),
                None => None,
            },
            entity_c: match &self.entity_c {
                Some(e) => Some(Box::new(e.deep_copy())),
                None => None,
            },
        }
    }

    /// A fresh node holding the masked signal `raw_signal ^ 0x5A`.
    pub fn new(raw_signal: u8) -> (n: Self)
        ensures
            n.charge == 0,
            n.masked_signal == raw_signal ^ SIGNAL_MASK,
            n.stable_ticks == 0,
            n.entity_a is None && n.entity_b is None && n.entity_c is None,
    {
        SubstrateNode {
            charge: 0,
            masked_signal: raw_signal ^ SIGNAL_MASK,
            stable_ticks: 0,
            entity_a: None,
            entity_b: None,
            entity_c: None,
        }
    }

    /// Checks that the unmasked signal is binary.
    pub fn validate(&self) -> (r: Result<(), SystemHalt>)
        ensures
            r is Ok <==> (self.masked_signal ^ SIGNAL_MASK) <= 1,
            r matches Err(h) ==> h.axis == FailureAxis::InternalInvariantBreach
                && h.message@ == "Masked signal violates binary invariant"@,
    {
        if (self.masked_signal ^ SIGNAL_MASK) > 1 {
            return Err(SystemHalt::new(FailureAxis::InternalInvariantBreach, "Masked signal violates binary invariant"));
        }
        Ok(())
    }

    /// Whether the node has been stable for at least three ticks.
    pub fn stability_invariant_met(&self) -> (r: bool)
        ensures
            r == (self.stable_ticks >= 3),
    {
        self.stable_ticks >= 3
    }
}

/// A node built from a binary signal validates.
pub proof fn lemma_binary_signal_validates(raw_signal: u8)
    requires
        raw_signal <= 1,
    ensures
        ((raw_signal ^ SIGNAL_MASK) ^ SIGNAL_MASK) <= 1,
{
    assert(((raw_signal ^ 0x5Au8) ^ 0x5Au8) == raw_signal) by (bit_vector);
}

} // verus!
