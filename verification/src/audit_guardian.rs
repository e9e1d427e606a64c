//! The boundary check of one run.
use vstd::prelude::*;

verus! {

/// Whether a run is admissible, and which boundaries it reached.
#[derive(Debug, Clone, Copy, PartialEq, Eq, Structural)]
pub struct GuardianDecision {
    pub admissible: bool,
    pub below_threshold: bool,
    pub boundary_saturation: bool,
    pub coherence_saturated: bool,
    pub l7_veto_fire: bool,
    pub l7_veto_tick: Option<u64>,
}

/// The guardian's decision on one tick from the checks it makes: coherence below the
/// threshold, the boundary condition, coherence saturation, high input pressure, and no
/// change of state. The run is admissible when none of the first three holds; the veto
/// fires, on this tick, when coherence is saturated, the state did not change and the
/// pressure is high.
pub fn certify_flags(
    below_threshold: bool,
    boundary_condition: bool,
    coherence_saturated: bool,
    pressure_high: bool,
    delta_state_zero: bool,
    tick: u64,
) -> (d: GuardianDecision)
    ensures
        d.admissible == !(below_threshold || boundary_condition || coherence_saturated),
        d.below_threshold == below_threshold,
        d.boundary_saturation == boundary_condition,
        d.coherence_saturated == coherence_saturated,
        d.l7_veto_fire == (coherence_saturated && delta_state_zero && pressure_high),
        d.l7_veto_tick == (if d.l7_veto_fire { Some(tick) } else { None::<u64> }),
{
    let l7_veto_fire = coherence_saturated && delta_state_zero && pressure_high;
    GuardianDecision {
        admissible: !(below_threshold || boundary_condition || coherence_saturated),
        below_threshold,
        boundary_saturation: boundary_condition,
        coherence_saturated,
        l7_veto_fire,
        l7_veto_tick: if l7_veto_fire {
            Some(tick)
        } else {
            None
        },
    }
}

} // verus!
