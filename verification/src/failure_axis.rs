//! Failure axes for deterministic halts.
use vstd::prelude::*;
use crate::text::push_str;

verus! {

/// The axis along which the system halted.
#[derive(Debug, Clone, Copy, PartialEq, Eq, Structural)]
pub enum FailureAxis {
    InternalInvariantBreach,
    ExternalInjectionDetected,
    TimingDriftFailure,
    AuthorityInversionAttempt,
    Reference,
    Feedback,
    Coupling,
    Resolution,
    Axiom6_7Misalignment,
    TpmUnavailable,
}

/// A deterministic halt: its axis and a message.
#[derive(Debug, Clone)]
pub struct SystemHalt {
    pub axis: FailureAxis,
    pub message: String,
}

impl SystemHalt {
    /// A halt with a copy of `message`.
    pub fn new(axis: FailureAxis, message: &str) -> (h: Self)
        ensures
            h.axis == axis,
            h.message@ == message@,
    {
        let mut m = String::new();
        push_str(&mut m, message);
        SystemHalt { axis, message: m }
    }

    /// A halt that takes ownership of an already formatted message.
    pub fn with_formatted(axis: FailureAxis, message: String) -> (h: Self)
        ensures
            h.axis == axis,
            h.message == message,
    {
        SystemHalt { axis, message }
    }
}

} // verus!
