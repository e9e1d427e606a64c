//! The validation matrix: what the kernel does on each path (normal, degraded,
//! emergency), and the code it reports.
use vstd::prelude::*;
use crate::reliability_controls::{CipPolicy, InboundPacket, enforce_cip007, cip007_admits};

verus! {

/// The code that a matrix outcome reports.
#[derive(Debug, Clone, Copy, PartialEq, Eq, Structural)]
pub enum MatrixCode {
    Err001StaleSubstitute,
    Halt0x0A,
    Halt0x0B,
    Exec0x0C,
}

/// What the kernel does.
#[derive(Debug, Clone, Copy, PartialEq, Eq, Structural)]
pub enum KernelLogicAction {
    ExecuteSced,
    BufferAlign,
    UseStateEstimator,
    Prc024Trip,
    KernelPanicHalt,
    PanicDispatch,
    LoadShed,
}

/// The state the grid is left in.
#[derive(Debug, Clone, Copy, PartialEq, Eq, Structural)]
pub enum OutputState {
    BalancedGridOptimizedCost,
    BalancedGridLatencyMasked,
    ValidatedEstimateWarnIssued,
    ResourceOfflineOrLoadShed,
    SecureLockdown,
}

/// One cell of the matrix: action, resulting state, code and message.
#[derive(Debug)]
pub struct MatrixOutcome {
    pub action: KernelLogicAction,
    pub output_state: OutputState,
    pub code: Option<MatrixCode>,
    pub message: String,
}

/// The message of the cyber-emergency freeze.
pub open spec fn cyber_freeze_message() -> Seq<char> {
    "sovereignty breach attempt blocked; fail-safe freeze engaged"@
}

/// The cyber-emergency path: a packet that CIP-007 refuses freezes the kernel
/// (`KernelPanicHalt`, `SecureLockdown`, `Halt0x0B`); an admitted one changes nothing.
pub fn evaluate_emergency_cyber(packet: &InboundPacket, policy: &CipPolicy) -> (r: Option<MatrixOutcome>)
    ensures
        r is None <==> cip007_admits(*packet, *policy),
        r matches Some(o) ==> o.action == KernelLogicAction::KernelPanicHalt && o.output_state
            == OutputState::SecureLockdown && o.code == Some(MatrixCode::Halt0x0B) && o.message@
            == cyber_freeze_message(),
{
    if enforce_cip007(packet, policy).is_err() {
        return Some(MatrixOutcome {
            action: KernelLogicAction::KernelPanicHalt,
            output_state: OutputState::SecureLockdown,
            code: Some(MatrixCode::Halt0x0B),
            message: "sovereignty breach attempt blocked; fail-safe freeze engaged".to_string(),
        });
    }
    None
}

/// The message of an under-frequency emergency.
pub open spec fn ufrt_message() -> Seq<char> {
    "UFRT threshold exceeded; emergency mitigation required"@
}

/// The message of a FAC-008 thermal emergency.
pub open spec fn fac008_message() -> Seq<char> {
    "FAC-008 emergency thermal violation"@
}

/// The physical-emergency path, given its two findings (the under-frequency ride-
/// through trip and the FAC-008 thermal violation, both measured outside the
/// library): the trip comes first, then the violation; either takes the resource
/// offline or sheds load, by panic dispatch when responsive reserves can cover it,
/// else by shedding load with `Exec0x0C`. With neither, nothing happens.
pub fn emergency_physics_outcome(ufrt_trip_required: bool, fac008_violation: bool, can_cover_with_rrs: bool) -> (r: Option<MatrixOutcome>)
    ensures
        r is None <==> !ufrt_trip_required && !fac008_violation,
        r matches Some(o) ==> {
            &&& o.action == (if can_cover_with_rrs { KernelLogicAction::PanicDispatch } else { KernelLogicAction::LoadShed })
            &&& o.output_state == OutputState::ResourceOfflineOrLoadShed
            &&& o.code == (if can_cover_with_rrs { None } else { Some(MatrixCode::Exec0x0C) })
            &&& o.message@ == (if ufrt_trip_required { ufrt_message() } else { fac008_message() })
        },
{
    if !ufrt_trip_required && !fac008_violation {
        return None;
    }
    let action = if can_cover_with_rrs { KernelLogicAction::PanicDispatch } else { KernelLogicAction::LoadShed };
    let code = if can_cover_with_rrs { None } else { Some(MatrixCode::Exec0x0C) };
    let message = if ufrt_trip_required {
        "UFRT threshold exceeded; emergency mitigation required".to_string()
    } else {
        "FAC-008 emergency thermal violation".to_string()
    };
    Some(MatrixOutcome { action, output_state: OutputState::ResourceOfflineOrLoadShed, code, message })
}

} // verus!
