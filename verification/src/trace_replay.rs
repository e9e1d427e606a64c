//! The kinds of event that a validation trace replays, and their names in reports.
use vstd::prelude::*;

verus! {

/// The kind of a replayed event.
#[derive(Debug, Clone, Copy, PartialEq, Eq, Structural)]
pub enum ReplayEventType {
    /// Normal telemetry ingestion.
    NormalTelemetry,
    /// A malformed or corrupted packet.
    MalformedTelemetry,
    /// Delayed telemetry (timing skew).
    DelayedTelemetry,
    /// Conflicting state information.
    ConflictingState,
    /// A replay attack (a repeated sequence).
    ReplayAttack,
    /// A protocol violation.
    ProtocolViolation,
    /// A timing divergence.
    TimingDivergence,
    /// A test at the admissibility boundary.
    AdmissibilityBoundary,
}

/// The name of an event kind in reports.
pub open spec fn event_label(t: ReplayEventType) -> Seq<char> {
    match t {
        ReplayEventType::NormalTelemetry => "Normal"@,
        ReplayEventType::MalformedTelemetry => "Malformed"@,
        ReplayEventType::DelayedTelemetry => "Delayed"@,
        ReplayEventType::ConflictingState => "ConflictingState"@,
        ReplayEventType::ReplayAttack => "ReplayAttack"@,
        ReplayEventType::ProtocolViolation => "ProtocolViolation"@,
        ReplayEventType::TimingDivergence => "TimingDivergence"@,
        ReplayEventType::AdmissibilityBoundary => "AdmissibilityBoundary"@,
    }
}

impl ReplayEventType {
    /// The name of this event kind in reports.
    pub fn label(&self) -> (s: String)
        ensures
            s@ == event_label(*self),
    {
        match self {
            ReplayEventType::NormalTelemetry => "Normal".to_string(),
            ReplayEventType::MalformedTelemetry => "Malformed".to_string(),
            ReplayEventType::DelayedTelemetry => "Delayed".to_string(),
            ReplayEventType::ConflictingState => "ConflictingState".to_string(),
            ReplayEventType::ReplayAttack => "ReplayAttack".to_string(),
            ReplayEventType::ProtocolViolation => "ProtocolViolation".to_string(),
            ReplayEventType::TimingDivergence => "TimingDivergence".to_string(),
            ReplayEventType::AdmissibilityBoundary => "AdmissibilityBoundary".to_string(),
        }
    }
}

} // verus!
