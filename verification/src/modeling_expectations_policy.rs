//! Modeling-expectations policy: the rules a network-model submission must follow,
//! and the check of one submission envelope against them.
use vstd::prelude::*;
use crate::text::{push_str, string_eq_str};

verus! {

/// Where the policy text comes from.
#[derive(Debug, Clone, PartialEq, Eq)]
pub struct PolicyDocument {
    pub title: String,
    pub version: String,
    pub source_file: String,
    pub extracted_text_file: String,
}

/// The channel that a participant must use for one submission domain.
#[derive(Debug, Clone, PartialEq, Eq)]
pub struct SubmissionChannelRule {
    pub participant: String,
    pub domain: String,
    pub required_channel: String,
    pub source_excerpt: String,
}

/// Rules for RARF submissions.
#[derive(Debug, Clone, PartialEq, Eq)]
pub struct RarfRules {
    pub failed_validation_rejected: bool,
    pub source_excerpt: String,
}

/// Rules for interim model updates.
#[derive(Debug, Clone, PartialEq, Eq)]
pub struct InterimUpdateRules {
    pub accepted_reasons: Vec<String>,
    pub discretionary_acceptance: bool,
    pub source_excerpt: String,
}

/// Rules for contingency definitions.
#[derive(Debug, Clone, PartialEq, Eq)]
pub struct ContingencyRules {
    pub contingency_component_flag_managed_by_submitter: bool,
    pub source_excerpt: String,
}

/// Which comparisons a relay loadability rating must pass.
#[derive(Debug, Clone, PartialEq, Eq)]
pub struct RelayValidationRules {
    pub must_be_greater_than_static_15_min: bool,
    pub must_be_greater_than_dynamic_20f_15_min_if_present: bool,
}

/// Rules for relay loadability ratings.
#[derive(Debug, Clone, PartialEq, Eq)]
pub struct RelayLoadabilityRules {
    pub applies_to_equipment: Vec<String>,
    pub co_owned_uses_most_conservative_value: bool,
    pub not_monitored_by_relay_sentinel_value: u32,
    pub validation: RelayValidationRules,
}

/// The whole policy.
#[derive(Debug, Clone, PartialEq, Eq)]
pub struct ModelingExpectationsPolicy {
    pub document: PolicyDocument,
    pub submission_channels: Vec<SubmissionChannelRule>,
    pub rarf_rules: RarfRules,
    pub interim_update_rules: InterimUpdateRules,
    pub contingency_rules: ContingencyRules,
    pub relay_loadability_rules: RelayLoadabilityRules,
}

/// One submission as it arrives.
#[derive(Debug, Clone, PartialEq, Eq)]
pub struct SubmissionEnvelope {
    pub participant: String,
    pub domain: String,
    pub channel: String,
    pub is_interim_update: bool,
    pub interim_reason: Option<String>,
    pub rarf_validation_passed: Option<bool>,
}

/// A rule that a submission breaks, by code and with a readable message.
#[derive(Debug, Clone, PartialEq, Eq)]
pub struct PolicyViolation {
    pub code: &'static str,
    pub message: String,
}

/// A violation as a pair of plain texts: its code and its message.
pub open spec fn violation_view(v: PolicyViolation) -> (Seq<char>, Seq<char>) {
    (v.code@, v.message@)
}

/// The channel rule that governs a (participant, domain) pair: the first one listed for it.
pub open spec fn governing_rule(rules: Seq<SubmissionChannelRule>, participant: Seq<char>, domain: Seq<char>) -> Option<int>
    decreases rules.len(),
{
    if rules.len() == 0 {
        None
    } else if rules[0].participant@ == participant && rules[0].domain@ == domain {
        Some(0)
    } else {
        match governing_rule(rules.drop_first(), participant, domain) {
            Some(i) => Some(i + 1),
            None => None,
        }
    }
}

/// The message of a channel mismatch.
pub open spec fn channel_mismatch_message(
    participant: Seq<char>,
    domain: Seq<char>,
    required: Seq<char>,
    channel: Seq<char>,
) -> Seq<char> {
    participant + " "@ + domain + " must use channel "@ + required + ", got "@ + channel
}

/// The channel-mismatch violations of an envelope (none or one).
pub open spec fn channel_violations(policy: ModelingExpectationsPolicy, env: SubmissionEnvelope) -> Seq<(Seq<char>, Seq<char>)> {
    let rules = policy.submission_channels@;
    match governing_rule(rules, env.participant@, env.domain@) {
        Some(i) => if rules[i].required_channel@ != env.channel@ {
            seq![("CHANNEL_MISMATCH"@, channel_mismatch_message(env.participant@, env.domain@, rules[i].required_channel@, env.channel@))]
        } else {
            Seq::empty()
        },
        None => Seq::empty(),
    }
}

/// Whether an envelope is a failed RARF network-model change that the policy rejects.
pub open spec fn rarf_rejected(policy: ModelingExpectationsPolicy, env: SubmissionEnvelope) -> bool {
    &&& env.participant@ == "RE"@
    &&& env.domain@ == "network_model_change"@
    &&& env.channel@ == "RARF"@
    &&& policy.rarf_rules.failed_validation_rejected
    &&& env.rarf_validation_passed == Some(false)
}

/// Whether an interim update gives a reason that the policy accepts.
pub open spec fn interim_reason_accepted(policy: ModelingExpectationsPolicy, env: SubmissionEnvelope) -> bool {
    match env.interim_reason {
        Some(reason) => exists|k: int|
            0 <= k < policy.interim_update_rules.accepted_reasons@.len()
                && #[trigger] policy.interim_update_rules.accepted_reasons@[k]@ == reason@,
        None => false,
    }
}

/// Every violation of an envelope, in the order: channel, RARF, interim reason.
pub open spec fn submission_violations(policy: ModelingExpectationsPolicy, env: SubmissionEnvelope) -> Seq<(Seq<char>, Seq<char>)> {
    channel_violations(policy, env)
        + (if rarf_rejected(policy, env) {
            seq![("RARF_VALIDATION_FAILED"@, "RARF submission failed validation and must be rejected"@)]
        } else {
            Seq::empty()
        })
        + (if env.is_interim_update && !interim_reason_accepted(policy, env) {
            seq![("INTERIM_REASON_NOT_ALLOWED"@, "Interim update reason not in accepted policy reasons"@)]
        } else {
            Seq::empty()
        })
}

fn find_governing_rule(rules: &Vec<SubmissionChannelRule>, participant: &String, domain: &String) -> (r: Option<usize>)
    ensures
        r matches Some(i) ==> governing_rule(rules@, participant@, domain@) == Some(i as int) && i < rules.len(),
        r is None ==> governing_rule(rules@, participant@, domain@) is None,
{
    let mut i: usize = 0;
    while i < rules.len()
        invariant
            i <= rules.len(),
            forall|j: int| 0 <= j < i ==> !(#[trigger] rules@[j].participant@ == participant@ && rules@[j].domain@ == domain@),
        decreases rules.len() - i,
    {
        let r = &rules[i];
        if string_eq_str(&r.participant, participant.as_str()) && string_eq_str(&r.domain, domain.as_str()) {
            proof {
                lemma_governing_rule_first(rules@, participant@, domain@, i as int);
            }
            return Some(i);
        }
        i = i + 1;
    }
    proof {
        lemma_governing_rule_none(rules@, participant@, domain@);
    }
    None
}

proof fn lemma_governing_rule_first(rules: Seq<SubmissionChannelRule>, participant: Seq<char>, domain: Seq<char>, i: int)
    requires
        0 <= i < rules.len(),
        rules[i].participant@ == participant && rules[i].domain@ == domain,
        forall|j: int| 0 <= j < i ==> !(#[trigger] rules[j].participant@ == participant && rules[j].domain@ == domain),
    ensures
        governing_rule(rules, participant, domain) == Some(i),
    decreases i,
{
    if i > 0 {
        let rest = rules.drop_first();
        assert forall|j: int| 0 <= j < i - 1 implies !(#[trigger] rest[j].participant@ == participant && rest[j].domain@ == domain) by {
            assert(rest[j] == rules[j + 1]);
        }
        assert(rest[i - 1] == rules[i]);
        lemma_governing_rule_first(rest, participant, domain, i - 1);
        assert(!(rules[0].participant@ == participant && rules[0].domain@ == domain));
    }
}

proof fn lemma_governing_rule_none(rules: Seq<SubmissionChannelRule>, participant: Seq<char>, domain: Seq<char>)
    requires
        forall|j: int| 0 <= j < rules.len() ==> !(#[trigger] rules[j].participant@ == participant && rules[j].domain@ == domain),
    ensures
        governing_rule(rules, participant, domain) is None,
    decreases rules.len(),
{
    if rules.len() > 0 {
        let rest = rules.drop_first();
        assert forall|j: int| 0 <= j < rest.len() implies !(#[trigger] rest[j].participant@ == participant && rest[j].domain@ == domain) by {
            assert(rest[j] == rules[j + 1]);
        }
        lemma_governing_rule_none(rest, participant, domain);
        assert(!(rules[0].participant@ == participant && rules[0].domain@ == domain));
    }
}

fn reason_is_accepted(reasons: &Vec<String>, reason: &String) -> (r: bool)
    ensures
        r == exists|k: int| 0 <= k < reasons@.len() && #[trigger] reasons@[k]@ == reason@,
{
    let mut i: usize = 0;
    while i < reasons.len()
        invariant
            i <= reasons.len(),
            forall|k: int| 0 <= k < i ==> #[trigger] reasons@[k]@ != reason@,
        decreases reasons.len() - i,
    {
        if string_eq_str(&reasons[i], reason.as_str()) {
            return true;
        }
        i = i + 1;
    }
    false
}

/// Checks one submission envelope against the policy and lists what it breaks: a
/// channel other than the one its (participant, domain) rule requires; a failed RARF
/// network-model change where the policy rejects those; an interim update without a
/// reason that the policy accepts.
pub fn validate_submission(policy: &ModelingExpectationsPolicy, envelope: &SubmissionEnvelope) -> (violations: Vec<PolicyViolation>)
    ensures
        violations@.map_values(|v: PolicyViolation| violation_view(v)) == submission_violations(*policy, *envelope),
{
    let mut violations: Vec<PolicyViolation> = Vec::new();
    let ghost expected = submission_violations(*policy, *envelope);

    match find_governing_rule(&policy.submission_channels, &envelope.participant, &envelope.domain) {
        Some(i) => {
            let rule = &policy.submission_channels[i];
            if !string_eq_str(&rule.required_channel, envelope.channel.as_str()) {
                let mut message = String::new();
                push_str(&mut message, envelope.participant.as_str());
                push_str(&mut message, " ");
                push_str(&mut message, envelope.domain.as_str());
                push_str(&mut message, " must use channel ");
                push_str(&mut message, rule.required_channel.as_str());
                push_str(&mut message, ", got ");
                push_str(&mut message, envelope.channel.as_str());
                violations.push(PolicyViolation { code: "CHANNEL_MISMATCH", message });
            }
        },
        None => {},
    }
    assert(violations@.map_values(|v: PolicyViolation| violation_view(v)) == channel_violations(*policy, *envelope));
    let ghost after_channel = violations@;

    let rarf = string_eq_str(&envelope.participant, "RE") && string_eq_str(&envelope.domain, "network_model_change")
        && string_eq_str(&envelope.channel, "RARF") && policy.rarf_rules.failed_validation_rejected
        && match envelope.rarf_validation_passed {
        Some(passed) => !passed,
        None => false,
    };
    if rarf {
        violations.push(PolicyViolation {
            code: "RARF_VALIDATION_FAILED",
            message: "RARF submission failed validation and must be rejected".to_string(),
        });
    }
    let ghost after_rarf = violations@;
    assert(after_rarf.map_values(|v: PolicyViolation| violation_view(v)) == channel_violations(*policy, *envelope) + (if rarf_rejected(*policy, *envelope) {
        seq![("RARF_VALIDATION_FAILED"@, "RARF submission failed validation and must be rejected"@)]
    } else {
        Seq::<(Seq<char>, Seq<char>)>::empty()
    }));

    if envelope.is_interim_update {
        let accepted = match &envelope.interim_reason {
            Some(reason) => reason_is_accepted(&policy.interim_update_rules.accepted_reasons, reason),
            None => false,
        };
        if !accepted {
            violations.push(PolicyViolation {
                code: "INTERIM_REASON_NOT_ALLOWED",
                message: "Interim update reason not in accepted policy reasons".to_string(),
            });
        }
    }
    assert(violations@.map_values(|v: PolicyViolation| violation_view(v)) == expected);
    violations
}

/// What the relay-loadability check reads of an input: the equipment type, whether the
/// relay loadability rating exceeds the static 15-minute rating, and, where a dynamic
/// 20F 15-minute rating is given, whether it exceeds that one too.
#[derive(Debug, Clone)]
pub struct RelayLoadabilityChecks {
    pub equipment_type: String,
    pub exceeds_static_15_min: bool,
    pub exceeds_dynamic_20f_15_min: Option<bool>,
}

/// The violations of the relay-loadability rules: none for equipment the rules do not
/// apply to; else one for a rating not above the static 15-minute rating, and one for a
/// rating not above a given dynamic 20F rating, each where the policy requires it.
pub open spec fn relay_violations(policy: ModelingExpectationsPolicy, checks: RelayLoadabilityChecks) -> Seq<(Seq<char>, Seq<char>)> {
    let rules = policy.relay_loadability_rules;
    if !(exists|i: int| 0 <= i < rules.applies_to_equipment@.len() && (#[trigger] rules.applies_to_equipment@[i])@ == checks.equipment_type@) {
        Seq::empty()
    } else {
        (if rules.validation.must_be_greater_than_static_15_min && !checks.exceeds_static_15_min {
            seq![("RELAY_NOT_GT_STATIC15"@, "Relay loadability must be greater than static 15-minute rating"@)]
        } else {
            Seq::empty()
        }) + (if rules.validation.must_be_greater_than_dynamic_20f_15_min_if_present && checks.exceeds_dynamic_20f_15_min == Some(false) {
            seq![("RELAY_NOT_GT_DYNAMIC20F"@, "Relay loadability must be greater than dynamic 20F 15-minute rating"@)]
        } else {
            Seq::empty()
        })
    }
}

/// Checks a relay-loadability input against the policy's rules (`relay_violations`).
pub fn validate_relay_loadability_checks(policy: &ModelingExpectationsPolicy, checks: &RelayLoadabilityChecks) -> (violations: Vec<PolicyViolation>)
    ensures
        violations@.map_values(|v: PolicyViolation| violation_view(v)) == relay_violations(*policy, *checks),
{
    let mut violations: Vec<PolicyViolation> = Vec::new();
    let kinds = &policy.relay_loadability_rules.applies_to_equipment;
    let mut applies = false;
    let mut i: usize = 0;
    while i < kinds.len() && !applies
        invariant
            i <= kinds.len(),
            applies ==> 0 < i && kinds@[i - 1]@ == checks.equipment_type@,
            !applies ==> forall|k: int| 0 <= k < i ==> (#[trigger] kinds@[k])@ != checks.equipment_type@,
        decreases kinds.len() - i,
    {
        if string_eq_str(&kinds[i], checks.equipment_type.as_str()) {
            applies = true;
        }
        i = i + 1;
    }
    if !applies {
        assert(violations@.map_values(|v: PolicyViolation| violation_view(v)) =~= relay_violations(*policy, *checks));
        return violations;
    }
    if policy.relay_loadability_rules.validation.must_be_greater_than_static_15_min && !checks.exceeds_static_15_min {
        violations.push(PolicyViolation {
            code: "RELAY_NOT_GT_STATIC15",
            message: "Relay loadability must be greater than static 15-minute rating".to_string(),
        });
    }
    if policy.relay_loadability_rules.validation.must_be_greater_than_dynamic_20f_15_min_if_present {
        match checks.exceeds_dynamic_20f_15_min {
            Some(false) => {
                violations.push(PolicyViolation {
                    code: "RELAY_NOT_GT_DYNAMIC20F",
                    message: "Relay loadability must be greater than dynamic 20F 15-minute rating".to_string(),
                });
            },
            _ => {},
        }
    }
    assert(violations@.map_values(|v: PolicyViolation| violation_view(v)) =~= relay_violations(*policy, *checks));
    violations
}

} // verus!
