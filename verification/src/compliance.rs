//! The canonical 100-tick compliance trace and its runtime checks.
use vstd::prelude::*;
use crate::failure_axis::{FailureAxis, SystemHalt};
use crate::sced_offer_chain::{build_hash_chain, ChainedRecord, ParseError, ScedResourceOfferRecord};
use crate::tlbss_types::SubstrateNode;

verus! {

/// Canonical deterministic reference for the 100-tick compliance run.
pub struct ComplianceTrace {
    pub input_signal: u8,
    pub mask_constant: u8,
    pub masked_contribution: u64,
    pub l7_threshold: u64,
    pub total_ticks: u64,
    pub expected_final_charge: u64,
}

impl ComplianceTrace {
    /// The reference conditions: input 50, mask 0x5A, contribution 50 ^ 0x5A =
    /// 104 per tick, threshold 100, 100 ticks, final charge 10400.
    pub fn canonical() -> (t: Self)
        ensures
            t.input_signal == 50,
            t.mask_constant == 0x5A,
            t.masked_contribution == 104,
            t.l7_threshold == 100,
            t.total_ticks == 100,
            t.expected_final_charge == 10400,
            t.masked_contribution * t.total_ticks == t.expected_final_charge,
    {
        let input_signal: u8 = 50;
        let mask_constant: u8 = 0x5A;
        let masked: u8 = input_signal ^ mask_constant;
        assert(50u8 ^ 0x5Au8 == 104u8) by (bit_vector);
        ComplianceTrace {
            input_signal,
            mask_constant,
            masked_contribution: masked as u64,
            l7_threshold: 100,
            total_ticks: 100,
            expected_final_charge: 10400,
        }
    }
}

/// Checks that the runtime charge equals `masked_contribution * tick_count`.
pub fn verify_charge_determinism(runtime_charge: u64, tick_count: u64, trace: &ComplianceTrace) -> (r: Result<(), SystemHalt>)
    requires
        trace.masked_contribution * tick_count <= u64::MAX,
    ensures
        r is Ok <==> runtime_charge == trace.masked_contribution * tick_count,
        r matches Err(h) ==> h.axis == FailureAxis::InternalInvariantBreach && h.message@ == "Charge determinism violation"@,
{
    let expected = trace.masked_contribution * tick_count;
    if runtime_charge != expected {
        return Err(SystemHalt::new(FailureAxis::InternalInvariantBreach, "Charge determinism violation"));
    }
    Ok(())
}

/// The stability count expected after `tick_count` ticks: the tick count,
/// capped at 255.
pub open spec fn expected_stable_ticks(tick_count: u64) -> u8 {
    if tick_count >= 255 {
        255
    } else {
        tick_count as u8
    }
}

/// Checks that the stability counter matches the tick count, capped at 255.
pub fn verify_stability_counter(runtime_stable_ticks: u8, tick_count: u64) -> (r: Result<(), SystemHalt>)
    ensures
        r is Ok <==> runtime_stable_ticks == expected_stable_ticks(tick_count),
        r matches Err(h) ==> h.axis == FailureAxis::InternalInvariantBreach && h.message@ == "Stability counter violation"@,
{
    let expected: u8 = if tick_count >= 255 {
        255
    } else {
        tick_count as u8
    };
    if runtime_stable_ticks != expected {
        return Err(SystemHalt::new(FailureAxis::InternalInvariantBreach, "Stability counter violation"));
    }
    Ok(())
}

/// Enforces the canonical trace on a node after `ticks_executed` ticks: the
/// charge check first, then the stability check.
pub fn enforce_canonical_trace(node: &SubstrateNode, ticks_executed: u64, trace: &ComplianceTrace) -> (r: Result<(), SystemHalt>)
    requires
        trace.masked_contribution * ticks_executed <= u64::MAX,
    ensures
        r is Ok <==> node.charge == trace.masked_contribution * ticks_executed
            && node.stable_ticks == expected_stable_ticks(ticks_executed),
        r matches Err(h) ==> h.axis == FailureAxis::InternalInvariantBreach && (if node.charge
            != trace.masked_contribution * ticks_executed {
            h.message@ == "Charge determinism violation"@
        } else {
            h.message@ == "Stability counter violation"@
        }),
{
    verify_charge_determinism(node.charge, ticks_executed, trace)?;
    verify_stability_counter(node.stable_ticks, ticks_executed)?;
    Ok(())
}

/// Validates a SCED offer batch by building its hash chain: the result is what
/// `build_hash_chain` gives, `chain_outcome` of the batch.
pub fn validate_sced_offer_chain(records: Vec<ScedResourceOfferRecord>) -> (r: Result<Vec<ChainedRecord>, ParseError>)
    ensures
        match r {
            Ok(out) => {
                &&& !crate::sced_offer_chain::has_duplicate_key(records@)
                &&& exists|t: Seq<ScedResourceOfferRecord>|
                    crate::sced_offer_chain::is_canonical_order(t, records@) && crate::sced_offer_chain::chain_matches(t, out@)
            },
            Err(ParseError::DuplicatePrimaryKey(ts, flag, resource, offer)) => {
                let k = (ts@, flag, resource@, offer@);
                &&& crate::sced_offer_chain::has_duplicate_key(records@)
                &&& crate::sced_offer_chain::duplicated_key(records@, k)
                &&& forall|k2: (Seq<char>, bool, Seq<char>, Seq<char>)| #[trigger] crate::sced_offer_chain::key_lt(k2, k)
                    ==> !crate::sced_offer_chain::duplicated_key(records@, k2)
            },
            Err(_) => false,
        },
        r matches Ok(out) ==> crate::sced_offer_chain::outcome_is_chain(records@, out@),
        r matches Err(ParseError::DuplicatePrimaryKey(ts, flag, resource, offer))
            ==> crate::sced_offer_chain::outcome_is_duplicate(records@, (ts@, flag, resource@, offer@)),
{
    let ghost orig = records@;
    let r = build_hash_chain(records);
    proof {
        if r is Err {
            crate::sced_offer_chain::lemma_has_duplicate_key_iff(orig);
        }
    }
    r
}

/// Whether one resource's award passed validation.
#[derive(Debug, Clone, Copy, PartialEq, Eq, Structural)]
pub enum ValidationStatus {
    Valid,
    Invalid,
}

} // verus!
