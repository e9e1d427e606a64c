//! Active control: a command is dispatched only when the guardian certifies
//! the tick admissible and the tick is not externalized.
use vstd::prelude::*;
use crate::audit_guardian::GuardianDecision;

verus! {

/// What the router reads of a tick record: the boundary condition, coherence saturation,
/// whether a dimensional transition was recorded, and the record's state vector.
#[derive(Debug, Clone, Copy, PartialEq, Eq)]
pub struct TickRecordFlags {
    pub boundary_condition: bool,
    pub coherence_saturated: bool,
    pub has_dimensional_transition: bool,
    pub state: [i64; 3],
}

/// The command a tick emits: its tick, the state vector it drives, and whether it is
/// the safe state. (The coherence metric that accompanies it is a floating-point
/// reading and is attached outside the library.)
#[derive(Debug, Clone, Copy, PartialEq, Eq)]
pub struct OutputCommand {
    pub tick: u64,
    pub state_vector: [i64; 3],
    pub safe_state: bool,
}

/// The routing decision for one tick, with the command it emits.
#[derive(Debug, Clone, Copy, PartialEq, Eq)]
pub struct VisionsDecision {
    pub allow_dispatch: bool,
    pub externalize_to_entity_c: bool,
    pub command: OutputCommand,
}

/// The active-control router.
#[derive(Debug, Clone, Copy, Default)]
pub struct VisionsCore;

impl VisionsCore {
    pub fn new() -> (v: Self) {
        VisionsCore
    }

    /// A tick is externalized when it is at the boundary, saturated and in transition;
    /// it is dispatched when the guardian admits it and it is not externalized. A
    /// dispatched tick emits the record's state vector; any other emits the safe
    /// state, a zero vector with `safe_state` set.
    pub fn route(&self, tick: u64, rec: &TickRecordFlags, guardian: GuardianDecision) -> (d: VisionsDecision)
        ensures
            d.externalize_to_entity_c == (rec.boundary_condition && rec.coherence_saturated
                && rec.has_dimensional_transition),
            d.allow_dispatch == (guardian.admissible && !d.externalize_to_entity_c),
            d.command.tick == tick,
            d.command.safe_state == !d.allow_dispatch,
            d.allow_dispatch ==> d.command.state_vector == rec.state,
            !d.allow_dispatch ==> d.command.state_vector@ == seq![0i64, 0i64, 0i64],
    {
        let externalize_to_entity_c = rec.boundary_condition && rec.coherence_saturated
            && rec.has_dimensional_transition;
        let allow_dispatch = guardian.admissible && !externalize_to_entity_c;
        let command = if allow_dispatch {
            OutputCommand { tick, state_vector: rec.state, safe_state: false }
        } else {
            let zero: [i64; 3] = [0, 0, 0];
            assert(zero@ == seq![0i64, 0i64, 0i64]);
            OutputCommand { tick, state_vector: zero, safe_state: true }
        };
        VisionsDecision { allow_dispatch, externalize_to_entity_c, command }
    }
}

} // verus!
