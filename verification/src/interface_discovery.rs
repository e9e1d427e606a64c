//! What discovery reports of a network endpoint, and the protocol families it can speak.
use vstd::prelude::*;

verus! {

/// An industrial protocol family.
#[derive(Debug, Clone, Copy, PartialEq, Eq, Structural)]
pub enum ProtocolKind {
    DNP3,
    Modbus,
    IEC61850,
    C37p118,
    IccpTase2,
}

/// One endpoint found on the network.
#[derive(Debug)]
pub struct DiscoveredEndpoint {
    pub hostname: String,
    pub port: u16,
    pub service: String,
}

} // verus!
