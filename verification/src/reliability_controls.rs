//! CIP-007 ports-and-services control: which inbound packets reach the control system.
use vstd::prelude::*;
use crate::text::string_eq_str;
use std::collections::HashSet;

verus! {

/// The family of an inbound packet.
#[derive(Debug, Clone, Copy, PartialEq, Eq, Structural)]
pub enum PacketType {
    Iccp,
    Dnp3,
    Modbus,
    Other,
}

/// An inbound packet as the perimeter sees it.
#[derive(Debug)]
pub struct InboundPacket {
    pub src_mac: String,
    pub dst_port: u16,
    pub packet_type: PacketType,
    pub writes_base_point: bool,
}

/// The ports and source MAC addresses that the perimeter lets through.
#[derive(Debug)]
pub struct CipPolicy {
    pub allowed_ports: HashSet<u16>,
    pub allowed_macs: Vec<String>,
}

/// Which reliability standard an enforcement refers to.
#[derive(Debug, Clone, Copy, PartialEq, Eq, Structural)]
pub enum EnforcementCode {
    ErrCip007,
    ErrFac008,
    HaltCip001,
}

/// An enforcement raised by a check: the standard and what happened.
#[derive(Debug)]
pub struct EnforcementEvent {
    pub code: EnforcementCode,
    pub message: String,
}

/// A refused request: the standard and why.
#[derive(Debug)]
pub struct EnforcementError {
    pub code: EnforcementCode,
    pub message: String,
}

/// Whether the policy lets a packet through: its port and its source MAC are both listed.
pub open spec fn cip007_admits(packet: InboundPacket, policy: CipPolicy) -> bool {
    &&& policy.allowed_ports@.contains(packet.dst_port)
    &&& exists|i: int| 0 <= i < policy.allowed_macs@.len() && (#[trigger] policy.allowed_macs@[i])@ == packet.src_mac@
}

fn port_allowed(ports: &HashSet<u16>, port: u16) -> (r: bool)
    ensures
        r == ports@.contains(port),
{
    proof {
        broadcast use vstd::std_specs::hash::group_hash_axioms;
    }
    ports.contains(&port)
}

fn mac_allowed(macs: &Vec<String>, mac: &String) -> (r: bool)
    ensures
        r == exists|i: int| 0 <= i < macs@.len() && (#[trigger] macs@[i])@ == mac@,
{
    let mut i: usize = 0;
    while i < macs.len()
        invariant
            i <= macs.len(),
            forall|j: int| 0 <= j < i ==> (#[trigger] macs@[j])@ != mac@,
        decreases macs.len() - i,
    {
        if string_eq_str(&macs[i], mac.as_str()) {
            return true;
        }
        i = i + 1;
    }
    false
}

/// Enforces CIP-007 on one inbound packet: refused, with `ErrCip007`, unless both its
/// destination port and its source MAC are on the policy's lists.
pub fn enforce_cip007(packet: &InboundPacket, policy: &CipPolicy) -> (r: Result<(), EnforcementError>)
    ensures
        r is Ok <==> cip007_admits(*packet, *policy),
        r matches Err(e) ==> e.code == EnforcementCode::ErrCip007,
{
    if !port_allowed(&policy.allowed_ports, packet.dst_port) {
        return Err(EnforcementError {
            code: EnforcementCode::ErrCip007,
            message: "destination port not allowed by CIP-007 policy".to_string(),
        });
    }
    if !mac_allowed(&policy.allowed_macs, &packet.src_mac) {
        return Err(EnforcementError {
            code: EnforcementCode::ErrCip007,
            message: "source MAC not allowed by CIP-007 policy".to_string(),
        });
    }
    Ok(())
}

} // verus!
