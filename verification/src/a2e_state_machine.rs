//! Authorization-to-energize: the stages a request moves through, and the validated
//! network model it is checked against.
use vstd::prelude::*;
use crate::text::string_eq_str;
use crate::reliability_controls::{EnforcementCode, EnforcementEvent};

verus! {

/// A stage of an authorization-to-energize request.
#[derive(Debug, Clone, Copy, PartialEq, Eq, Structural)]
pub enum A2eState {
    Staged,
    Validating,
    Approved,
    Rejected,
}

/// The equipment ids present in the validated CIM snapshot, each once.
#[derive(Debug)]
pub struct A2ePolicyContext {
    pub validated_cim_equipment_ids: Vec<String>,
}

impl A2ePolicyContext {
    /// Whether an equipment id is in the validated snapshot.
    pub fn is_validated(&self, equipment_id: &str) -> (r: bool)
        ensures
            r == exists|i: int|
                0 <= i < self.validated_cim_equipment_ids@.len() && (
                #[trigger] self.validated_cim_equipment_ids@[i])@ == equipment_id@,
    {
        let mut i: usize = 0;
        while i < self.validated_cim_equipment_ids.len()
            invariant
                i <= self.validated_cim_equipment_ids@.len(),
                forall|j: int| 0 <= j < i ==> (#[trigger] self.validated_cim_equipment_ids@[j])@ != equipment_id@,
            decreases self.validated_cim_equipment_ids.len() - i,
        {
            if string_eq_str(&self.validated_cim_equipment_ids[i], equipment_id) {
                assert((self.validated_cim_equipment_ids@[i as int])@ == equipment_id@);
                return true;
            }
            i = i + 1;
        }
        false
    }
}

/// What the energization guard decides for a request, apart from the flow figures it
/// reports: the final stage, the stages passed through, the permission bit, the
/// enforcement raised, the reason, and whether the predicted flow was checked.
#[derive(Debug)]
pub struct A2eStageOutcome {
    pub state: A2eState,
    pub trace: Vec<A2eState>,
    pub a2e_permission_bit: u8,
    pub event: Option<EnforcementEvent>,
    pub reason: String,
    pub flow_checked: bool,
}

/// The guard's stages for a request: staged when a look-ahead entry exists; then, on
/// the energize date only, validating; rejected when the equipment is not in the
/// validated snapshot; rejected when the predicted post-close flow exceeds the FAC
/// threshold; approved otherwise.
pub open spec fn a2e_trace(lookahead: bool, on_energize_date: bool, validated: bool, exceeds_threshold: bool) -> Seq<A2eState> {
    let staged: Seq<A2eState> = if lookahead { seq![A2eState::Staged] } else { Seq::empty() };
    if !on_energize_date {
        staged
    } else if !validated {
        staged + seq![A2eState::Validating, A2eState::Rejected]
    } else if exceeds_threshold {
        staged + seq![A2eState::Validating, A2eState::Rejected]
    } else {
        staged + seq![A2eState::Validating, A2eState::Approved]
    }
}

/// Runs the energization guard's stages. `exceeds_fac_threshold` says whether the
/// predicted post-close flow exceeds the lesser of 125% of the 2-hour emergency rating
/// and the relay loadability; it is read only at that stage.
pub fn evaluate_a2e_stages(
    equipment_id: &str,
    current_operating_day: &str,
    energize_date: &str,
    lookahead_entry_exists: bool,
    ctx: &A2ePolicyContext,
    exceeds_fac_threshold: bool,
) -> (o: A2eStageOutcome)
    ensures
        ({
            let on_day = current_operating_day@ == energize_date@;
            let validated = exists|i: int|
                0 <= i < ctx.validated_cim_equipment_ids@.len() && (
                #[trigger] ctx.validated_cim_equipment_ids@[i])@ == equipment_id@;
            &&& o.trace@ == a2e_trace(lookahead_entry_exists, on_day, validated, exceeds_fac_threshold)
            &&& o.flow_checked == (on_day && validated)
            &&& (!on_day ==> o.state == A2eState::Staged && o.a2e_permission_bit == 0 && o.event is None
                && o.reason@ == "awaiting energize_date; remains staged"@)
            &&& (on_day && !validated ==> o.state == A2eState::Rejected && o.a2e_permission_bit == 0
                && o.reason@ == "topology consistency check failed"@ && (o.event matches Some(e)
                && e.code == EnforcementCode::HaltCip001
                && e.message@ == "A2E rejected: topology integrity breach (equipment missing in validated CIM snapshot)"@))
            &&& (on_day && validated && exceeds_fac_threshold ==> o.state == A2eState::Rejected
                && o.a2e_permission_bit == 0 && o.reason@ == "predictive safety check failed"@
                && (o.event matches Some(e) && e.code == EnforcementCode::HaltCip001
                && e.message@ == "A2E rejected: predicted post-close flow exceeds FAC relay threshold"@))
            &&& (on_day && validated && !exceeds_fac_threshold ==> o.state == A2eState::Approved
                && o.a2e_permission_bit == 1 && o.event is None && o.reason@ == "A2E approved"@)
        }),
{
    let mut trace: Vec<A2eState> = Vec::new();
    if lookahead_entry_exists {
        trace.push(A2eState::Staged);
    }
    if !string_eq_str(&current_operating_day.to_string(), energize_date) {
        return A2eStageOutcome {
            state: A2eState::Staged,
            trace,
            a2e_permission_bit: 0,
            event: None,
            reason: "awaiting energize_date; remains staged".to_string(),
            flow_checked: false,
        };
    }
    trace.push(A2eState::Validating);
    if !ctx.is_validated(equipment_id) {
        trace.push(A2eState::Rejected);
        return A2eStageOutcome {
            state: A2eState::Rejected,
            trace,
            a2e_permission_bit: 0,
            event: Some(EnforcementEvent {
                code: EnforcementCode::HaltCip001,
                message: "A2E rejected: topology integrity breach (equipment missing in validated CIM snapshot)".to_string(),
            }),
            reason: "topology consistency check failed".to_string(),
            flow_checked: false,
        };
    }
    if exceeds_fac_threshold {
        trace.push(A2eState::Rejected);
        return A2eStageOutcome {
            state: A2eState::Rejected,
            trace,
            a2e_permission_bit: 0,
            event: Some(EnforcementEvent {
                code: EnforcementCode::HaltCip001,
                message: "A2E rejected: predicted post-close flow exceeds FAC relay threshold".to_string(),
            }),
            reason: "predictive safety check failed".to_string(),
            flow_checked: true,
        };
    }
    trace.push(A2eState::Approved);
    A2eStageOutcome {
        state: A2eState::Approved,
        trace,
        a2e_permission_bit: 1,
        event: None,
        reason: "A2E approved".to_string(),
        flow_checked: true,
    }
}

} // verus!
