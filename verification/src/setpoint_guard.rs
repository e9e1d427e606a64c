//! Outcomes of guarding a setpoint command.
use vstd::prelude::*;

verus! {

/// Why a setpoint command was refused.
#[derive(Debug, Clone, Copy, PartialEq, Eq, Structural)]
pub enum FaultCode {
    InvalidActivePower,
    InvalidReactivePower,
    InvalidTiming,
    PhysicalLimitExceeded,
    RateLimitExceeded,
}

/// Result of a guard operation: a valid output, a degraded output, or a fault.
#[derive(Debug)]
pub enum GuardResult<T> {
    Valid(T),
    Degraded(T),
    Fault(FaultCode),
}

} // verus!
