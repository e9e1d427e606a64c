//! Operational semantics: the constraints that an infrastructure snapshot must meet,
//! the violations found, and how they resolve into one enforcement decision.
use vstd::prelude::*;
use crate::hashing::{sha256_hex, sha256_hex_spec};
use crate::telemetry::{BreakerState, TelemetryIssue, TelemetryStamp, TelemetryValidationConfig, issue_text_spec, point_issues, validate_point};
use crate::graph_builder::TopologyGraph;
use crate::sorted_text::{insert_distinct, lemma_sorted_unique, strictly_sorted, text_views};
use crate::text::{push_str, push_decimal, decimal, string_eq_str, to_lowercase, lowercase_spec};

verus! {

/// Where a violation was observed.
#[derive(Debug, Clone, Copy, PartialEq, Eq, Structural)]
pub enum OperationalSource {
    Dnp3,
    Iec61850,
    Pmu,
    Topology,
    OperatorCommand,
    Unknown,
}

/// What the kernel does about a violation.
#[derive(Debug, Clone, Copy, PartialEq, Eq, Structural)]
pub enum EnforcementAction {
    Reject,
    QStateIsolation,
    OperatorReview,
    PreserveTrace,
    Accept,
}

/// How serious the violations of a snapshot are, taken together.
#[derive(Debug, Clone, Copy, PartialEq, Eq, Structural)]
pub enum ResolutionCategory {
    Informational,
    Advisory,
    Suspicious,
    Incoherent,
    NonAdmissible,
    InfrastructureImpossible,
    SovereignViolation,
}

/// The identity of the semantics in force.
#[derive(Debug)]
pub struct SemanticSpecification {
    pub name: String,
    pub version: String,
    pub identity_hash: String,
    pub constraint_lineage_hash: String,
}

/// The constraint families, joined by `|`, in the order they are checked.
pub open spec fn constraint_lineage() -> Seq<char> {
    "temporal_coherence|event_ordering|contradictory_state|breaker_sequencing|topology_consistency|operator_authority|relay_transition_legality"@
}

/// The name of the semantics.
pub open spec fn semantics_name() -> Seq<char> {
    "MVRE Operational Semantics"@
}

/// The version of the semantics.
pub open spec fn semantics_version() -> Seq<char> {
    "1.0.0"@
}

impl SemanticSpecification {
    /// The semantics in force: its name and version, the hash of name, version and
    /// lineage joined by `|`, and the hash of the lineage.
    pub fn current() -> (s: Self)
        ensures
            s.name@ == semantics_name(),
            s.version@ == semantics_version(),
            s.identity_hash@ == sha256_hex_spec(semantics_name() + "|"@ + semantics_version() + "|"@ + constraint_lineage()),
            s.constraint_lineage_hash@ == sha256_hex_spec(constraint_lineage()),
    {
        let name = "MVRE Operational Semantics".to_string();
        let version = "1.0.0".to_string();
        let mut lineage = "temporal_coherence".to_string();
        push_str(&mut lineage, "|event_ordering");
        push_str(&mut lineage, "|contradictory_state");
        push_str(&mut lineage, "|breaker_sequencing");
        push_str(&mut lineage, "|topology_consistency");
        push_str(&mut lineage, "|operator_authority");
        push_str(&mut lineage, "|relay_transition_legality");
        proof {
            reveal_strlit("temporal_coherence");
            reveal_strlit("|event_ordering");
            reveal_strlit("|contradictory_state");
            reveal_strlit("|breaker_sequencing");
            reveal_strlit("|topology_consistency");
            reveal_strlit("|operator_authority");
            reveal_strlit("|relay_transition_legality");
            reveal_strlit("temporal_coherence|event_ordering|contradictory_state|breaker_sequencing|topology_consistency|operator_authority|relay_transition_legality");
            assert(lineage@ == constraint_lineage());
        }
        let mut payload = name.clone();
        push_str(&mut payload, "|");
        push_str(&mut payload, version.as_str());
        push_str(&mut payload, "|");
        push_str(&mut payload, lineage.as_str());
        let identity_hash = sha256_hex(payload.as_str());
        let constraint_lineage_hash = sha256_hex(lineage.as_str());
        SemanticSpecification { name, version, identity_hash, constraint_lineage_hash }
    }
}

/// One broken constraint: where, which, why, and what to do.
#[derive(Debug)]
pub struct SemanticViolation {
    pub source: OperationalSource,
    pub constraint: String,
    pub reason: String,
    pub action: EnforcementAction,
}

impl SemanticViolation {
    /// A violation of `constraint`.
    pub fn new(source: OperationalSource, constraint: &str, reason: String, action: EnforcementAction) -> (v: Self)
        ensures
            v.source == source,
            v.constraint@ == constraint@,
            v.reason == reason,
            v.action == action,
    {
        SemanticViolation { source, constraint: constraint.to_string(), reason, action }
    }
}

/// The decision about a snapshot.
#[derive(Debug)]
pub struct SemanticOutcome {
    pub admissible: bool,
    pub violations: Vec<SemanticViolation>,
    pub resolution: EnforcementAction,
    pub resolution_category: ResolutionCategory,
}

/// Who issued a command, and with what authority.
#[derive(Debug)]
pub struct OperatorCommandContext {
    pub operator_id: String,
    pub role: String,
    pub command: String,
    pub authority_level: u8,
}

/// A reported breaker state change.
#[derive(Debug)]
pub struct TopologyEvent {
    pub equipment_id: String,
    pub breaker_state: BreakerState,
    pub timestamp_ms_utc: u64,
}

/// The thresholds the semantics are checked with.
#[derive(Debug, Clone, Copy, PartialEq, Eq, Structural)]
pub struct SemanticConfig {
    pub stale_threshold_ms: u64,
    pub max_latency_ms: u64,
    pub skew_window_ms: u64,
    pub authority_threshold: u8,
}

impl Default for SemanticConfig {
    fn default() -> (c: Self)
        ensures
            c == (SemanticConfig { stale_threshold_ms: 20_000, max_latency_ms: 2_000, skew_window_ms: 2_000, authority_threshold: 5 }),
    {
        SemanticConfig { stale_threshold_ms: 20_000, max_latency_ms: 2_000, skew_window_ms: 2_000, authority_threshold: 5 }
    }
}

/// The text that identifies a configuration: its four thresholds in decimal, joined by `|`.
pub open spec fn config_payload(c: SemanticConfig) -> Seq<char> {
    decimal(c.stale_threshold_ms as nat) + "|"@ + decimal(c.max_latency_ms as nat) + "|"@ + decimal(
        c.skew_window_ms as nat,
    ) + "|"@ + decimal(c.authority_threshold as nat)
}

impl SemanticConfig {
    /// The hash that identifies this configuration.
    pub fn identity_hash(&self) -> (h: String)
        ensures
            h@ == sha256_hex_spec(config_payload(*self)),
    {
        let mut payload = String::new();
        push_decimal(&mut payload, self.stale_threshold_ms);
        push_str(&mut payload, "|");
        push_decimal(&mut payload, self.max_latency_ms);
        push_str(&mut payload, "|");
        push_decimal(&mut payload, self.skew_window_ms);
        push_str(&mut payload, "|");
        push_decimal(&mut payload, self.authority_threshold as u64);
        sha256_hex(payload.as_str())
    }
}

/// The text an operator command is identified by: operator, role, command and
/// authority level (in decimal), joined by `|`.
pub open spec fn command_payload(c: OperatorCommandContext) -> Seq<char> {
    c.operator_id@ + "|"@ + c.role@ + "|"@ + c.command@ + "|"@ + decimal(c.authority_level as nat)
}

/// The hash that identifies an operator command.
pub fn operator_command_context_hash(c: &OperatorCommandContext) -> (h: String)
    ensures
        h@ == sha256_hex_spec(command_payload(*c)),
{
    let mut payload = String::new();
    push_str(&mut payload, c.operator_id.as_str());
    push_str(&mut payload, "|");
    push_str(&mut payload, c.role.as_str());
    push_str(&mut payload, "|");
    push_str(&mut payload, c.command.as_str());
    push_str(&mut payload, "|");
    push_decimal(&mut payload, c.authority_level as u64);
    sha256_hex(payload.as_str())
}

/// The text a snapshot's timing is identified by: ingest time and source latency in
/// decimal, joined by `|`.
pub open spec fn timing_payload(ingest_time_ms_utc: u64, source_latency_ms: u64) -> Seq<char> {
    decimal(ingest_time_ms_utc as nat) + "|"@ + decimal(source_latency_ms as nat)
}

/// The hash that identifies a snapshot's timing.
pub fn timing_identity(ingest_time_ms_utc: u64, source_latency_ms: u64) -> (h: String)
    ensures
        h@ == sha256_hex_spec(timing_payload(ingest_time_ms_utc, source_latency_ms)),
{
    let mut payload = String::new();
    push_decimal(&mut payload, ingest_time_ms_utc);
    push_str(&mut payload, "|");
    push_decimal(&mut payload, source_latency_ms);
    sha256_hex(payload.as_str())
}

/// An optional text, or `NONE` when there is none.
pub open spec fn or_none(o: Option<Seq<char>>) -> Seq<char> {
    match o {
        Some(t) => t,
        None => "NONE"@,
    }
}

/// The identities a snapshot carries, each a hash or a text it is built from.
#[derive(Debug)]
pub struct SnapshotIdentity {
    pub topology_identity: String,
    pub topology_lineage_hash: Option<String>,
    pub semantic_spec_identity: String,
    pub semantic_spec_version: String,
    pub semantic_configuration_hash: String,
    pub constraint_lineage_hash: String,
    pub telemetry_provenance_hash: String,
    pub operator_command_context_hash: Option<String>,
    pub timing_identity: String,
    pub replay_equivalence_metadata: Option<String>,
    pub snapshot_identity: String,
}

/// An optional text as plain value.
pub open spec fn opt_text_view(o: Option<String>) -> Option<Seq<char>> {
    match o {
        Some(t) => Some(t@),
        None => None,
    }
}

/// The text a snapshot is identified by: each identity under its name, `NONE` for
/// one that is absent, then ingest time and source latency, joined by `|`.
pub open spec fn snapshot_payload(i: SnapshotIdentity, ingest_time_ms_utc: u64, source_latency_ms: u64) -> Seq<char> {
    "topology_identity="@ + i.topology_identity@
        + "|topology_lineage_hash="@ + or_none(opt_text_view(i.topology_lineage_hash))
        + "|semantic_spec_identity="@ + i.semantic_spec_identity@
        + "|semantic_spec_version="@ + i.semantic_spec_version@
        + "|semantic_configuration_hash="@ + i.semantic_configuration_hash@
        + "|constraint_lineage_hash="@ + i.constraint_lineage_hash@
        + "|telemetry_provenance_hash="@ + i.telemetry_provenance_hash@
        + "|operator_command_context_hash="@ + or_none(opt_text_view(i.operator_command_context_hash))
        + "|timing_identity="@ + i.timing_identity@
        + "|replay_equivalence_metadata="@ + or_none(opt_text_view(i.replay_equivalence_metadata))
        + "|ingest_time_ms_utc="@ + decimal(ingest_time_ms_utc as nat)
        + "|source_latency_ms="@ + decimal(source_latency_ms as nat)
}

fn push_or_none(s: &mut String, o: &Option<String>)
    ensures
        final(s)@ == old(s)@ + or_none(opt_text_view(*o)),
{
    match o {
        Some(t) => push_str(s, t.as_str()),
        None => push_str(s, "NONE"),
    }
}

/// The identities of a snapshot: the topology identity and lineage, telemetry
/// provenance hash and replay metadata as given (the provenance hash is taken over
/// floating-point text outside the library); the semantics' identity, version and
/// lineage hash; the configuration's hash; the operator command's hash; the timing
/// identity; and the hash of all of them (`snapshot_payload`).
pub fn snapshot_identity(
    topology_identity: String,
    topology_lineage_hash: Option<String>,
    telemetry_provenance_hash: String,
    operator_command: &Option<OperatorCommandContext>,
    ingest_time_ms_utc: u64,
    source_latency_ms: u64,
    replay_equivalence_metadata: Option<String>,
    config: &SemanticConfig,
) -> (i: SnapshotIdentity)
    ensures
        i.topology_identity == topology_identity,
        i.topology_lineage_hash == topology_lineage_hash,
        i.telemetry_provenance_hash == telemetry_provenance_hash,
        i.replay_equivalence_metadata == replay_equivalence_metadata,
        i.semantic_spec_identity@ == sha256_hex_spec(semantics_name() + "|"@ + semantics_version() + "|"@ + constraint_lineage()),
        i.semantic_spec_version@ == semantics_version(),
        i.semantic_configuration_hash@ == sha256_hex_spec(config_payload(*config)),
        i.constraint_lineage_hash@ == sha256_hex_spec(constraint_lineage()),
        opt_text_view(i.operator_command_context_hash) == (match *operator_command {
            Some(c) => Some(sha256_hex_spec(command_payload(c))),
            None => None::<Seq<char>>,
        }),
        i.timing_identity@ == sha256_hex_spec(timing_payload(ingest_time_ms_utc, source_latency_ms)),
        i.snapshot_identity@ == sha256_hex_spec(snapshot_payload(i, ingest_time_ms_utc, source_latency_ms)),
{
    let spec = SemanticSpecification::current();
    let semantic_configuration_hash = config.identity_hash();
    let command_hash = match operator_command {
        Some(c) => Some(operator_command_context_hash(c)),
        None => None,
    };
    let timing = timing_identity(ingest_time_ms_utc, source_latency_ms);
    let mut p = String::new();
    push_str(&mut p, "topology_identity=");
    push_str(&mut p, topology_identity.as_str());
    push_str(&mut p, "|topology_lineage_hash=");
    push_or_none(&mut p, &topology_lineage_hash);
    push_str(&mut p, "|semantic_spec_identity=");
    push_str(&mut p, spec.identity_hash.as_str());
    push_str(&mut p, "|semantic_spec_version=");
    push_str(&mut p, spec.version.as_str());
    push_str(&mut p, "|semantic_configuration_hash=");
    push_str(&mut p, semantic_configuration_hash.as_str());
    push_str(&mut p, "|constraint_lineage_hash=");
    push_str(&mut p, spec.constraint_lineage_hash.as_str());
    push_str(&mut p, "|telemetry_provenance_hash=");
    push_str(&mut p, telemetry_provenance_hash.as_str());
    push_str(&mut p, "|operator_command_context_hash=");
    push_or_none(&mut p, &command_hash);
    push_str(&mut p, "|timing_identity=");
    push_str(&mut p, timing.as_str());
    push_str(&mut p, "|replay_equivalence_metadata=");
    push_or_none(&mut p, &replay_equivalence_metadata);
    push_str(&mut p, "|ingest_time_ms_utc=");
    push_decimal(&mut p, ingest_time_ms_utc);
    push_str(&mut p, "|source_latency_ms=");
    push_decimal(&mut p, source_latency_ms);
    let snapshot = sha256_hex(p.as_str());
    let i = SnapshotIdentity {
        topology_identity,
        topology_lineage_hash,
        semantic_spec_identity: spec.identity_hash,
        semantic_spec_version: spec.version,
        semantic_configuration_hash,
        constraint_lineage_hash: spec.constraint_lineage_hash,
        telemetry_provenance_hash,
        operator_command_context_hash: command_hash,
        timing_identity: timing,
        replay_equivalence_metadata,
        snapshot_identity: snapshot,
    };
    assert(p@ =~= snapshot_payload(i, ingest_time_ms_utc, source_latency_ms));
    i
}

/// Whether some violation calls for the action.
pub open spec fn any_action(v: Seq<SemanticViolation>, a: EnforcementAction) -> bool {
    exists|i: int| 0 <= i < v.len() && (#[trigger] v[i]).action == a
}

/// Whether some violation is of the constraint.
pub open spec fn any_constraint(v: Seq<SemanticViolation>, c: Seq<char>) -> bool {
    exists|i: int| 0 <= i < v.len() && (#[trigger] v[i]).constraint@ == c
}

/// The action that resolves a set of violations: accept when there are none, else the
/// first of operator review, isolation and trace preservation that one calls for, else
/// rejection.
pub open spec fn resolution_of(v: Seq<SemanticViolation>) -> EnforcementAction {
    if v.len() == 0 {
        EnforcementAction::Accept
    } else if any_action(v, EnforcementAction::OperatorReview) {
        EnforcementAction::OperatorReview
    } else if any_action(v, EnforcementAction::QStateIsolation) {
        EnforcementAction::QStateIsolation
    } else if any_action(v, EnforcementAction::PreserveTrace) {
        EnforcementAction::PreserveTrace
    } else {
        EnforcementAction::Reject
    }
}

/// The category of a set of violations: a topology-consistency violation makes it
/// infrastructure-impossible; otherwise a rejection makes it non-admissible, then
/// isolation incoherent, operator review suspicious, trace preservation advisory.
pub open spec fn category_of(v: Seq<SemanticViolation>) -> ResolutionCategory {
    if any_constraint(v, "topology_consistency"@) {
        ResolutionCategory::InfrastructureImpossible
    } else if v.len() == 0 {
        ResolutionCategory::Informational
    } else if any_action(v, EnforcementAction::Reject) {
        ResolutionCategory::NonAdmissible
    } else if any_action(v, EnforcementAction::QStateIsolation) {
        ResolutionCategory::Incoherent
    } else if any_action(v, EnforcementAction::OperatorReview) {
        ResolutionCategory::Suspicious
    } else if any_action(v, EnforcementAction::PreserveTrace) {
        ResolutionCategory::Advisory
    } else {
        ResolutionCategory::Suspicious
    }
}

/// A rejection outweighs isolation: when no violation is of topology consistency and
/// some violation calls for rejection, the violations are non-admissible, whatever
/// else they call for.
pub proof fn lemma_rejection_is_non_admissible(v: Seq<SemanticViolation>, k: int)
    requires
        forall|i: int| 0 <= i < v.len() ==> (#[trigger] v[i]).constraint@ != "topology_consistency"@,
        0 <= k < v.len(),
        v[k].action == EnforcementAction::Reject,
    ensures
        category_of(v) == ResolutionCategory::NonAdmissible,
{
    assert(v[k].action == EnforcementAction::Reject);
}

/// A topology-consistency violation makes the violations infrastructure-impossible,
/// whatever actions they call for.
pub proof fn lemma_topology_violation_dominates(v: Seq<SemanticViolation>, k: int)
    requires
        0 <= k < v.len(),
        v[k].constraint@ == "topology_consistency"@,
    ensures
        category_of(v) == ResolutionCategory::InfrastructureImpossible,
{
    assert(v[k].constraint@ == "topology_consistency"@);
}

fn has_action(v: &Vec<SemanticViolation>, a: EnforcementAction) -> (r: bool)
    ensures
        r == any_action(v@, a),
{
    let mut i: usize = 0;
    while i < v.len()
        invariant
            i <= v.len(),
            forall|j: int| 0 <= j < i ==> (#[trigger] v@[j]).action != a,
        decreases v.len() - i,
    {
        if v[i].action == a {
            return true;
        }
        i = i + 1;
    }
    false
}

fn has_constraint(v: &Vec<SemanticViolation>, c: &str) -> (r: bool)
    ensures
        r == any_constraint(v@, c@),
{
    let mut i: usize = 0;
    while i < v.len()
        invariant
            i <= v.len(),
            forall|j: int| 0 <= j < i ==> (#[trigger] v@[j]).constraint@ != c@,
        decreases v.len() - i,
    {
        if string_eq_str(&v[i].constraint, c) {
            return true;
        }
        i = i + 1;
    }
    false
}

/// Resolves the violations found in a snapshot into one decision: admissible exactly
/// when there are none, with `resolution_of` and `category_of` them.
pub fn resolve_violations(violations: Vec<SemanticViolation>) -> (o: SemanticOutcome)
    ensures
        o.violations@ == violations@,
        o.admissible == (violations@.len() == 0),
        o.resolution == resolution_of(violations@),
        o.resolution_category == category_of(violations@),
        (exists|i: int| 0 <= i < violations@.len() && (#[trigger] violations@[i]).constraint@ == "topology_consistency"@)
            ==> o.resolution_category == ResolutionCategory::InfrastructureImpossible,
        (forall|i: int| 0 <= i < violations@.len() ==> (#[trigger] violations@[i]).constraint@ != "topology_consistency"@)
            && (exists|i: int| 0 <= i < violations@.len() && (#[trigger] violations@[i]).action == EnforcementAction::Reject)
            ==> o.resolution_category == ResolutionCategory::NonAdmissible,
        (forall|i: int| 0 <= i < violations@.len() ==> (#[trigger] violations@[i]).constraint@ != "topology_consistency"@
            && violations@[i].action != EnforcementAction::Reject)
            && (exists|i: int| 0 <= i < violations@.len() && (#[trigger] violations@[i]).action == EnforcementAction::QStateIsolation)
            ==> o.resolution_category == ResolutionCategory::Incoherent,
        violations@.len() == 0 ==> o.resolution == EnforcementAction::Accept && o.resolution_category
            == ResolutionCategory::Informational,
        (exists|i: int| 0 <= i < violations@.len() && (#[trigger] violations@[i]).action == EnforcementAction::OperatorReview)
            ==> o.resolution == EnforcementAction::OperatorReview,
        (forall|i: int| 0 <= i < violations@.len() ==> (#[trigger] violations@[i]).action != EnforcementAction::OperatorReview)
            && (exists|i: int| 0 <= i < violations@.len() && (#[trigger] violations@[i]).action == EnforcementAction::QStateIsolation)
            ==> o.resolution == EnforcementAction::QStateIsolation,
{
    let resolution = if violations.len() == 0 {
        EnforcementAction::Accept
    } else if has_action(&violations, EnforcementAction::OperatorReview) {
        EnforcementAction::OperatorReview
    } else if has_action(&violations, EnforcementAction::QStateIsolation) {
        EnforcementAction::QStateIsolation
    } else if has_action(&violations, EnforcementAction::PreserveTrace) {
        EnforcementAction::PreserveTrace
    } else {
        EnforcementAction::Reject
    };
    let category = if violations.len() == 0 {
        ResolutionCategory::Informational
    } else if has_action(&violations, EnforcementAction::Reject) {
        ResolutionCategory::NonAdmissible
    } else if has_action(&violations, EnforcementAction::QStateIsolation) {
        ResolutionCategory::Incoherent
    } else if has_action(&violations, EnforcementAction::OperatorReview) {
        ResolutionCategory::Suspicious
    } else if has_action(&violations, EnforcementAction::PreserveTrace) {
        ResolutionCategory::Advisory
    } else {
        ResolutionCategory::Suspicious
    };
    let category = if has_constraint(&violations, "topology_consistency") {
        ResolutionCategory::InfrastructureImpossible
    } else {
        category
    };
    SemanticOutcome { admissible: violations.len() == 0, violations, resolution, resolution_category: category }
}

/// A violation as plain values: source, constraint, reason, action.
pub open spec fn violation_view(v: SemanticViolation) -> (OperationalSource, Seq<char>, Seq<char>, EnforcementAction) {
    (v.source, v.constraint@, v.reason@, v.action)
}

/// Views of violations.
pub open spec fn violation_views(v: Seq<SemanticViolation>) -> Seq<(OperationalSource, Seq<char>, Seq<char>, EnforcementAction)> {
    v.map_values(|x: SemanticViolation| violation_view(x))
}

/// The authority violations of a command: too low an authority level calls for an
/// operator review; a guest role (in any case) is rejected.
pub open spec fn authority_violations(command: Option<OperatorCommandContext>, config: SemanticConfig) -> Seq<(OperationalSource, Seq<char>, Seq<char>, EnforcementAction)> {
    match command {
        None => Seq::empty(),
        Some(c) => {
            let low = if c.authority_level < config.authority_threshold {
                seq![
                    (
                        OperationalSource::OperatorCommand,
                        "operator_authority"@,
                        "Operator '"@ + c.operator_id@ + "' role '"@ + c.role@ + "' lacks authority level "@ + decimal(
                            c.authority_level as nat,
                        ) + " for command "@ + c.command@,
                        EnforcementAction::OperatorReview,
                    ),
                ]
            } else {
                Seq::empty()
            };
            let guest = if lowercase_spec(c.role@) == "guest"@ {
                seq![
                    (
                        OperationalSource::OperatorCommand,
                        "operator_authority"@,
                        "Unauthorized command "@ + c.command@ + " from guest operator "@ + c.operator_id@,
                        EnforcementAction::Reject,
                    ),
                ]
            } else {
                Seq::empty()
            };
            low + guest
        },
    }
}

/// Checks the authority of the snapshot's operator command, if any.
pub fn validate_operator_authority(command: &Option<OperatorCommandContext>, config: &SemanticConfig) -> (v: Vec<SemanticViolation>)
    ensures
        violation_views(v@) == authority_violations(*command, *config),
{
    let mut results: Vec<SemanticViolation> = Vec::new();
    match command {
        Some(c) => {
            if c.authority_level < config.authority_threshold {
                let mut m = "Operator '".to_string();
                push_str(&mut m, c.operator_id.as_str());
                push_str(&mut m, "' role '");
                push_str(&mut m, c.role.as_str());
                push_str(&mut m, "' lacks authority level ");
                push_decimal(&mut m, c.authority_level as u64);
                push_str(&mut m, " for command ");
                push_str(&mut m, c.command.as_str());
                results.push(SemanticViolation::new(OperationalSource::OperatorCommand, "operator_authority", m, EnforcementAction::OperatorReview));
            }
            let ghost r1 = violation_views(results@);
            let lower = to_lowercase(c.role.as_str());
            if string_eq_str(&lower, "guest") {
                let mut m = "Unauthorized command ".to_string();
                push_str(&mut m, c.command.as_str());
                push_str(&mut m, " from guest operator ");
                push_str(&mut m, c.operator_id.as_str());
                results.push(SemanticViolation::new(OperationalSource::OperatorCommand, "operator_authority", m, EnforcementAction::Reject));
            }
            assert(violation_views(results@) == authority_violations(*command, *config));
        },
        None => {
            assert(violation_views(results@) =~= Seq::empty());
        },
    }
    results
}

/// A violation as plain values.
pub type ViolationView = (OperationalSource, Seq<char>, Seq<char>, EnforcementAction);

/// `ids` holds the equipment ids of the events, each once, in ascending order.
pub open spec fn is_equipment_order(ids: Seq<Seq<char>>, events: Seq<TopologyEvent>) -> bool {
    strictly_sorted(ids) && forall|k: Seq<char>|
        ids.contains(k) <==> exists|i: int| 0 <= i < events.len() && (#[trigger] events[i]).equipment_id@ == k
}

/// The equipment ids of the events, each once, in ascending order (as an ordered map
/// keyed by equipment id iterates them).
pub open spec fn equipment_order(events: Seq<TopologyEvent>) -> Seq<Seq<char>> {
    choose|ids: Seq<Seq<char>>| is_equipment_order(ids, events)
}

/// The events of one piece of equipment, in report order.
pub open spec fn events_of(events: Seq<TopologyEvent>, id: Seq<char>) -> Seq<TopologyEvent> {
    events.filter(|e: TopologyEvent| e.equipment_id@ == id)
}

/// `a - b`, or 0 when `b` is larger.
pub open spec fn sat_sub(a: u64, b: u64) -> u64 {
    if a >= b { (a - b) as u64 } else { 0 }
}

fn equipment_ids(events: &Vec<TopologyEvent>) -> (ids: Vec<String>)
    ensures
        text_views(ids@) == equipment_order(events@),
{
    let mut ids: Vec<String> = Vec::new();
    let mut i: usize = 0;
    assert(text_views(ids@) =~= Seq::<Seq<char>>::empty());
    while i < events.len()
        invariant
            i <= events.len(),
            strictly_sorted(text_views(ids@)),
            forall|k: Seq<char>|
                text_views(ids@).contains(k) <==> exists|j: int| 0 <= j < i && (#[trigger] events@[j]).equipment_id@ == k,
        decreases events.len() - i,
    {
        insert_distinct(&mut ids, events[i].equipment_id.clone());
        proof {
            assert forall|k: Seq<char>|
                text_views(ids@).contains(k) <==> exists|j: int| 0 <= j < i + 1 && (#[trigger] events@[j]).equipment_id@ == k by {
                if k == events@[i as int].equipment_id@ {
                    assert(0 <= i < i + 1);
                }
            }
        }
        i = i + 1;
    }
    proof {
        assert(is_equipment_order(text_views(ids@), events@));
        let c = equipment_order(events@);
        assert(is_equipment_order(c, events@));
        lemma_sorted_unique(text_views(ids@), c);
    }
    ids
}

/// The violation of a breaker in an intermediate or bad state.
pub open spec fn bad_state_violation(id: Seq<char>, ts: u64) -> ViolationView {
    (
        OperationalSource::Topology,
        "breaker_sequencing"@,
        "Breaker "@ + id + " reported intermediate or bad state at "@ + decimal(ts as nat) + "ms"@,
        EnforcementAction::QStateIsolation,
    )
}

/// The violation of a breaker that reported again too soon.
pub open spec fn quick_toggle_violation(id: Seq<char>, delta: u64) -> ViolationView {
    (
        OperationalSource::Topology,
        "breaker_timing"@,
        "Breaker "@ + id + " toggled state too quickly: "@ + decimal(delta as nat) + "ms between events"@,
        EnforcementAction::QStateIsolation,
    )
}

/// The violation of a breaker reported both closed and open.
pub open spec fn conflicting_reports_violation(id: Seq<char>) -> ViolationView {
    (
        OperationalSource::Topology,
        "topology_consistency"@,
        "Breaker "@ + id + " has conflicting closed/open reports"@,
        EnforcementAction::QStateIsolation,
    )
}

/// Going through one breaker's events in order: how many closed and open reports,
/// the last timestamp, and the violations so far.
pub open spec fn breaker_scan(id: Seq<char>, g: Seq<TopologyEvent>, skew: u64) -> (nat, nat, u64, Seq<ViolationView>)
    decreases g.len(),
{
    if g.len() == 0 {
        (0, 0, 0, Seq::empty())
    } else {
        let prev = breaker_scan(id, g.drop_last(), skew);
        let e = g.last();
        let after_state = match e.breaker_state {
            BreakerState::Closed => (prev.0 + 1, prev.1, prev.3),
            BreakerState::Open => (prev.0, prev.1 + 1, prev.3),
            _ => (prev.0, prev.1, prev.3.push(bad_state_violation(id, e.timestamp_ms_utc))),
        };
        let out = if prev.2 > 0 && sat_sub(e.timestamp_ms_utc, prev.2) < skew {
            after_state.2.push(quick_toggle_violation(id, sat_sub(e.timestamp_ms_utc, prev.2)))
        } else {
            after_state.2
        };
        (after_state.0, after_state.1, e.timestamp_ms_utc, out)
    }
}

/// The sequencing violations of one breaker: none with fewer than two events; else
/// those of its scan, then a conflict if it was reported both closed and open.
pub open spec fn breaker_group(id: Seq<char>, g: Seq<TopologyEvent>, skew: u64) -> Seq<ViolationView> {
    if g.len() < 2 {
        Seq::empty()
    } else {
        let r = breaker_scan(id, g, skew);
        if r.0 > 0 && r.1 > 0 {
            r.3.push(conflicting_reports_violation(id))
        } else {
            r.3
        }
    }
}

/// The sequencing violations of the breakers `ids`, in that order.
pub open spec fn breaker_groups(ids: Seq<Seq<char>>, events: Seq<TopologyEvent>, skew: u64) -> Seq<ViolationView>
    decreases ids.len(),
{
    if ids.len() == 0 {
        Seq::empty()
    } else {
        breaker_groups(ids.drop_last(), events, skew) + breaker_group(ids.last(), events_of(events, ids.last()), skew)
    }
}

fn push_violation(results: &mut Vec<SemanticViolation>, source: OperationalSource, constraint: &str, reason: String, action: EnforcementAction)
    ensures
        violation_views(final(results)@) == violation_views(old(results)@).push((source, constraint@, reason@, action)),
{
    let ghost before = results@;
    results.push(SemanticViolation::new(source, constraint, reason, action));
    assert(violation_views(results@) == violation_views(before).push((source, constraint@, reason@, action)));
}

fn breaker_group_exec(id: &String, events: &Vec<TopologyEvent>, skew: u64, results: &mut Vec<SemanticViolation>)
    ensures
        violation_views(final(results)@) == violation_views(old(results)@) + breaker_group(id@, events_of(events@, id@), skew),
{
    let ghost pred = |e: TopologyEvent| e.equipment_id@ == id@;
    let ghost base = violation_views(results@);
    let mut count: usize = 0;
    let mut i: usize = 0;
    while i < events.len()
        invariant
            i <= events.len(),
            pred == (|e: TopologyEvent| e.equipment_id@ == id@),
            count == events@.take(i as int).filter(pred).len(),
        decreases events.len() - i,
    {
        proof {
            events@.take(i as int).lemma_filter_push(events@[i as int], pred);
            assert(events@.take(i + 1) == events@.take(i as int).push(events@[i as int]));
        }
        if string_eq_str(&events[i].equipment_id, id.as_str()) {
            count = count + 1;
        }
        i = i + 1;
    }
    assert(events@.take(events.len() as int) == events@);
    if count < 2 {
        assert(violation_views(results@) == base + breaker_group(id@, events_of(events@, id@), skew));
        return;
    }
    let mut closed: usize = 0;
    let mut open: usize = 0;
    let mut last_ts: u64 = 0;
    let mut out: Vec<SemanticViolation> = Vec::new();
    let mut i: usize = 0;
    while i < events.len()
        invariant
            i <= events.len(),
            pred == (|e: TopologyEvent| e.equipment_id@ == id@),
            closed <= i,
            open <= i,
            ({
                let r = breaker_scan(id@, events@.take(i as int).filter(pred), skew);
                closed == r.0 && open == r.1 && last_ts == r.2 && violation_views(out@) == r.3
            }),
        decreases events.len() - i,
    {
        let e = &events[i];
        proof {
            events@.take(i as int).lemma_filter_push(events@[i as int], pred);
            assert(events@.take(i + 1) == events@.take(i as int).push(events@[i as int]));
        }
        if string_eq_str(&e.equipment_id, id.as_str()) {
            let ghost g = events@.take(i + 1).filter(pred);
            assert(g.drop_last() == events@.take(i as int).filter(pred));
            assert(g.last() == *e);
            match e.breaker_state {
                BreakerState::Closed => {
                    closed = closed + 1;
                },
                BreakerState::Open => {
                    open = open + 1;
                },
                _ => {
                    let mut m = "Breaker ".to_string();
                    push_str(&mut m, id.as_str());
                    push_str(&mut m, " reported intermediate or bad state at ");
                    push_decimal(&mut m, e.timestamp_ms_utc);
                    push_str(&mut m, "ms");
                    push_violation(&mut out, OperationalSource::Topology, "breaker_sequencing", m, EnforcementAction::QStateIsolation);
                },
            }
            let delta = e.timestamp_ms_utc.saturating_sub(last_ts);
            if last_ts > 0 && delta < skew {
                let mut m = "Breaker ".to_string();
                push_str(&mut m, id.as_str());
                push_str(&mut m, " toggled state too quickly: ");
                push_decimal(&mut m, delta);
                push_str(&mut m, "ms between events");
                push_violation(&mut out, OperationalSource::Topology, "breaker_timing", m, EnforcementAction::QStateIsolation);
            }
            last_ts = e.timestamp_ms_utc;
        }
        i = i + 1;
    }
    assert(events@.take(events.len() as int) == events@);
    if closed > 0 && open > 0 {
        let mut m = "Breaker ".to_string();
        push_str(&mut m, id.as_str());
        push_str(&mut m, " has conflicting closed/open reports");
        push_violation(&mut out, OperationalSource::Topology, "topology_consistency", m, EnforcementAction::QStateIsolation);
    }
    let ghost before = results@;
    results.append(&mut out);
    assert(violation_views(results@) == violation_views(before) + breaker_group(id@, events_of(events@, id@), skew));
}

/// Checks breaker sequencing, breaker by breaker in ascending id order: intermediate
/// or bad states, reports closer together than the skew window, and breakers reported
/// both closed and open.
pub fn validate_breaker_sequencing(events: &Vec<TopologyEvent>, config: &SemanticConfig) -> (v: Vec<SemanticViolation>)
    ensures
        violation_views(v@) == breaker_groups(equipment_order(events@), events@, config.skew_window_ms),
{
    let ids = equipment_ids(events);
    let mut results: Vec<SemanticViolation> = Vec::new();
    let mut k: usize = 0;
    assert(violation_views(results@) =~= Seq::empty());
    while k < ids.len()
        invariant
            k <= ids.len(),
            text_views(ids@) == equipment_order(events@),
            violation_views(results@) == breaker_groups(text_views(ids@).take(k as int), events@, config.skew_window_ms),
        decreases ids.len() - k,
    {
        proof {
            let t = text_views(ids@).take(k + 1);
            assert(t.drop_last() == text_views(ids@).take(k as int));
            assert(t.last() == ids@[k as int]@);
        }
        breaker_group_exec(&ids[k], events, config.skew_window_ms, &mut results);
        k = k + 1;
    }
    assert(text_views(ids@).take(ids.len() as int) == text_views(ids@));
    results
}

/// A breaker report as plain values: state and timestamp.
pub type Report = (BreakerState, u64);

/// Inserts a report after every report with a timestamp not later than its own.
pub open spec fn ts_insert(s: Seq<Report>, x: Report) -> Seq<Report>
    decreases s.len(),
{
    if s.len() == 0 {
        seq![x]
    } else if s[0].1 > x.1 {
        seq![x] + s
    } else {
        seq![s[0]] + ts_insert(s.drop_first(), x)
    }
}

/// Reports in timestamp order, reports with equal timestamps in their original order.
pub open spec fn ts_sort(s: Seq<Report>) -> Seq<Report>
    decreases s.len(),
{
    if s.len() == 0 {
        Seq::empty()
    } else {
        ts_insert(ts_sort(s.drop_last()), s.last())
    }
}

proof fn lemma_ts_insert_at(s: Seq<Report>, x: Report, p: int)
    requires
        0 <= p <= s.len(),
        forall|j: int| 0 <= j < p ==> (#[trigger] s[j]).1 <= x.1,
        p < s.len() ==> s[p].1 > x.1,
    ensures
        ts_insert(s, x) == s.insert(p, x),
    decreases p,
{
    if p == 0 {
        if s.len() > 0 {
            assert(seq![x] + s == s.insert(0, x));
        } else {
            assert(seq![x] == s.insert(0, x));
        }
    } else {
        let rest = s.drop_first();
        assert forall|j: int| 0 <= j < p - 1 implies (#[trigger] rest[j]).1 <= x.1 by {
            assert(rest[j] == s[j + 1]);
        }
        if p - 1 < rest.len() {
            assert(rest[p - 1] == s[p]);
        }
        lemma_ts_insert_at(rest, x, p - 1);
        assert(seq![s[0]] + rest.insert(p - 1, x) == s.insert(p, x));
    }
}

/// The reports of one piece of equipment, in report order.
pub open spec fn reports_of(events: Seq<TopologyEvent>, id: Seq<char>) -> Seq<Report> {
    events_of(events, id).map_values(|e: TopologyEvent| (e.breaker_state, e.timestamp_ms_utc))
}

/// The violation of a report earlier than the one before it.
pub open spec fn regression_violation(id: Seq<char>, ts: u64, last: u64) -> ViolationView {
    (
        OperationalSource::Topology,
        "causal_regression"@,
        "Topology event "@ + id + " regression: "@ + decimal(ts as nat) + "ms after "@ + decimal(last as nat),
        EnforcementAction::Reject,
    )
}

/// The violation of a state change closer than the skew window to the last report.
pub open spec fn topology_toggle_violation(id: Seq<char>, delta: u64) -> ViolationView {
    (
        OperationalSource::Topology,
        "breaker_timing"@,
        "Topology event "@ + id + " toggled too quickly: "@ + decimal(delta as nat) + "ms between events"@,
        EnforcementAction::QStateIsolation,
    )
}

/// The violation of two different states reported at the same time.
pub open spec fn same_time_conflict_violation(id: Seq<char>, ts: u64) -> ViolationView {
    (
        OperationalSource::Topology,
        "topology_consistency"@,
        "Topology event "@ + id + " reported conflicting states at same timestamp "@ + decimal(ts as nat),
        EnforcementAction::QStateIsolation,
    )
}

/// Going through one breaker's reports in time order: the last report, and the
/// violations so far.
pub open spec fn coherence_scan(id: Seq<char>, g: Seq<Report>, skew: u64) -> (Option<Report>, Seq<ViolationView>)
    decreases g.len(),
{
    if g.len() == 0 {
        (None, Seq::empty())
    } else {
        let prev = coherence_scan(id, g.drop_last(), skew);
        let (st, ts) = g.last();
        let out = match prev.0 {
            None => prev.1,
            Some(last) => {
                let o1 = if ts < last.1 { prev.1.push(regression_violation(id, ts, last.1)) } else { prev.1 };
                let o2 = if last.0 != st && sat_sub(ts, last.1) < skew {
                    o1.push(topology_toggle_violation(id, sat_sub(ts, last.1)))
                } else {
                    o1
                };
                if last.0 != st && ts == last.1 {
                    o2.push(same_time_conflict_violation(id, ts))
                } else {
                    o2
                }
            },
        };
        (Some((st, ts)), out)
    }
}

/// The coherence violations of the breakers `ids`, in that order.
pub open spec fn coherence_groups(ids: Seq<Seq<char>>, events: Seq<TopologyEvent>, skew: u64) -> Seq<ViolationView>
    decreases ids.len(),
{
    if ids.len() == 0 {
        Seq::empty()
    } else {
        coherence_groups(ids.drop_last(), events, skew) + coherence_scan(
            ids.last(),
            ts_sort(reports_of(events, ids.last())),
            skew,
        ).1
    }
}

/// The violation of a snapshot without any authoritative topology.
pub open spec fn missing_topology_violation() -> ViolationView {
    (
        OperationalSource::Topology,
        "authoritative_topology_missing"@,
        "No authoritative CIM-derived topology was available for this snapshot"@,
        EnforcementAction::Reject,
    )
}

/// `true` or `false`.
pub open spec fn bool_text(b: bool) -> Seq<char> {
    if b { "true"@ } else { "false"@ }
}

/// The violation of a divergence between modelled and telemetered switch state.
pub open spec fn divergence_violation(d: crate::graph_builder::TopologyDivergence) -> ViolationView {
    (
        OperationalSource::Topology,
        "topology_divergence"@,
        "Topology divergence detected for "@ + d.equipment_id@ + ": modeled_closed="@ + bool_text(d.modeled_closed)
            + " telemetered_closed="@ + bool_text(d.telemetered_closed),
        EnforcementAction::Reject,
    )
}

/// All topology coherence violations: a missing topology, then breaker by breaker in
/// ascending id order the violations of its reports in time order, then one per
/// divergence of the graph.
pub open spec fn topology_coherence_violations(
    graph: TopologyGraph,
    version_present: bool,
    events: Seq<TopologyEvent>,
    skew: u64,
) -> Seq<ViolationView> {
    (if graph.buses@.len() == 0 && graph.branches@.len() == 0 && !version_present {
        seq![missing_topology_violation()]
    } else {
        Seq::empty()
    }) + coherence_groups(equipment_order(events), events, skew) + graph.divergences@.map_values(
        |d: crate::graph_builder::TopologyDivergence| divergence_violation(d),
    )
}

fn sorted_reports(id: &String, events: &Vec<TopologyEvent>) -> (out: Vec<Report>)
    ensures
        out@ == ts_sort(reports_of(events@, id@)),
{
    let ghost pred = |e: TopologyEvent| e.equipment_id@ == id@;
    let ghost f = |e: TopologyEvent| (e.breaker_state, e.timestamp_ms_utc);
    let mut out: Vec<Report> = Vec::new();
    let mut i: usize = 0;
    while i < events.len()
        invariant
            i <= events.len(),
            pred == (|e: TopologyEvent| e.equipment_id@ == id@),
            f == (|e: TopologyEvent| (e.breaker_state, e.timestamp_ms_utc)),
            out@ == ts_sort(events@.take(i as int).filter(pred).map_values(f)),
        decreases events.len() - i,
    {
        let e = &events[i];
        proof {
            events@.take(i as int).lemma_filter_push(events@[i as int], pred);
            assert(events@.take(i + 1) == events@.take(i as int).push(events@[i as int]));
        }
        if string_eq_str(&e.equipment_id, id.as_str()) {
            let x: Report = (e.breaker_state, e.timestamp_ms_utc);
            let ghost g = events@.take(i + 1).filter(pred).map_values(f);
            assert(g.drop_last() == events@.take(i as int).filter(pred).map_values(f));
            assert(g.last() == x);
            let mut p: usize = 0;
            while p < out.len() && out[p].1 <= x.1
                invariant
                    p <= out.len(),
                    forall|j: int| 0 <= j < p ==> (#[trigger] out@[j]).1 <= x.1,
                decreases out.len() - p,
            {
                p = p + 1;
            }
            proof {
                lemma_ts_insert_at(out@, x, p as int);
            }
            out.insert(p, x);
        }
        i = i + 1;
    }
    assert(events@.take(events.len() as int) == events@);
    out
}

fn coherence_group_exec(id: &String, events: &Vec<TopologyEvent>, skew: u64, results: &mut Vec<SemanticViolation>)
    ensures
        violation_views(final(results)@) == violation_views(old(results)@) + coherence_scan(
            id@,
            ts_sort(reports_of(events@, id@)),
            skew,
        ).1,
{
    let g = sorted_reports(id, events);
    let ghost base = violation_views(results@);
    let mut last: Option<Report> = None;
    let mut i: usize = 0;
    while i < g.len()
        invariant
            i <= g.len(),
            coherence_scan(id@, g@.take(i as int), skew).0 == last,
            violation_views(results@) == base + coherence_scan(id@, g@.take(i as int), skew).1,
        decreases g.len() - i,
    {
        let (st, ts) = g[i];
        proof {
            assert(g@.take(i + 1).drop_last() == g@.take(i as int));
            assert(g@.take(i + 1).last() == g@[i as int]);
        }
        match last {
            None => {},
            Some((pst, lts)) => {
                if ts < lts {
                    let mut m = "Topology event ".to_string();
                    push_str(&mut m, id.as_str());
                    push_str(&mut m, " regression: ");
                    push_decimal(&mut m, ts);
                    push_str(&mut m, "ms after ");
                    push_decimal(&mut m, lts);
                    push_violation(results, OperationalSource::Topology, "causal_regression", m, EnforcementAction::Reject);
                }
                let delta = ts.saturating_sub(lts);
                if pst != st && delta < skew {
                    let mut m = "Topology event ".to_string();
                    push_str(&mut m, id.as_str());
                    push_str(&mut m, " toggled too quickly: ");
                    push_decimal(&mut m, delta);
                    push_str(&mut m, "ms between events");
                    push_violation(results, OperationalSource::Topology, "breaker_timing", m, EnforcementAction::QStateIsolation);
                }
                if pst != st && ts == lts {
                    let mut m = "Topology event ".to_string();
                    push_str(&mut m, id.as_str());
                    push_str(&mut m, " reported conflicting states at same timestamp ");
                    push_decimal(&mut m, ts);
                    push_violation(results, OperationalSource::Topology, "topology_consistency", m, EnforcementAction::QStateIsolation);
                }
            },
        }
        last = Some((st, ts));
        i = i + 1;
    }
    assert(g@.take(g.len() as int) == g@);
}

/// Checks topology coherence: that an authoritative topology exists, that each
/// breaker's reports, in time order, neither go back in time nor change state within
/// the skew window or at the same instant, and that no switch diverges from the model.
pub fn validate_topology_coherence(
    graph: &TopologyGraph,
    topology_version_present: bool,
    events: &Vec<TopologyEvent>,
    config: &SemanticConfig,
) -> (v: Vec<SemanticViolation>)
    ensures
        violation_views(v@) == topology_coherence_violations(*graph, topology_version_present, events@, config.skew_window_ms),
{
    let mut results: Vec<SemanticViolation> = Vec::new();
    if graph.buses.len() == 0 && graph.branches.len() == 0 && !topology_version_present {
        push_violation(
            &mut results,
            OperationalSource::Topology,
            "authoritative_topology_missing",
            "No authoritative CIM-derived topology was available for this snapshot".to_string(),
            EnforcementAction::Reject,
        );
    }
    let ghost head = violation_views(results@);
    assert(head == (if graph.buses@.len() == 0 && graph.branches@.len() == 0 && !topology_version_present {
        seq![missing_topology_violation()]
    } else {
        Seq::<ViolationView>::empty()
    }));
    let ids = equipment_ids(events);
    let mut k: usize = 0;
    while k < ids.len()
        invariant
            k <= ids.len(),
            text_views(ids@) == equipment_order(events@),
            violation_views(results@) == head + coherence_groups(text_views(ids@).take(k as int), events@, config.skew_window_ms),
        decreases ids.len() - k,
    {
        proof {
            let t = text_views(ids@).take(k + 1);
            assert(t.drop_last() == text_views(ids@).take(k as int));
            assert(t.last() == ids@[k as int]@);
        }
        coherence_group_exec(&ids[k], events, config.skew_window_ms, &mut results);
        k = k + 1;
    }
    assert(text_views(ids@).take(ids.len() as int) == text_views(ids@));
    let ghost mid = violation_views(results@);
    let mut d: usize = 0;
    while d < graph.divergences.len()
        invariant
            d <= graph.divergences.len(),
            violation_views(results@) == mid + graph.divergences@.take(d as int).map_values(
                |x: crate::graph_builder::TopologyDivergence| divergence_violation(x),
            ),
        decreases graph.divergences.len() - d,
    {
        let dv = &graph.divergences[d];
        let mut m = "Topology divergence detected for ".to_string();
        push_str(&mut m, dv.equipment_id.as_str());
        push_str(&mut m, ": modeled_closed=");
        push_str(&mut m, if dv.modeled_closed { "true" } else { "false" });
        push_str(&mut m, " telemetered_closed=");
        push_str(&mut m, if dv.telemetered_closed { "true" } else { "false" });
        push_violation(&mut results, OperationalSource::Topology, "topology_divergence", m, EnforcementAction::Reject);
        assert(graph.divergences@.take(d + 1).map_values(|x: crate::graph_builder::TopologyDivergence| divergence_violation(x))
            == graph.divergences@.take(d as int).map_values(|x: crate::graph_builder::TopologyDivergence| divergence_violation(x)).push(
            divergence_violation(*dv),
        ));
        d = d + 1;
    }
    assert(graph.divergences@.take(graph.divergences.len() as int) == graph.divergences@);
    results
}

/// The telemetry thresholds that the semantic thresholds stand for, in whole seconds.
pub open spec fn telemetry_config_of(config: SemanticConfig) -> TelemetryValidationConfig {
    TelemetryValidationConfig {
        stale_threshold_seconds: config.stale_threshold_ms / 1000,
        max_end_to_end_latency_seconds: config.max_latency_ms / 1000,
    }
}

/// One temporal-coherence violation for each issue of a point.
pub open spec fn issue_violations(issues: Seq<TelemetryIssue>) -> Seq<ViolationView> {
    issues.map_values(
        |i: TelemetryIssue|
            (
                OperationalSource::Dnp3,
                "temporal_coherence"@,
                "Telemetry coherence failure: "@ + issue_text_spec(i),
                EnforcementAction::Reject,
            ),
    )
}

/// The temporal-coherence violations of the first `n` points, point by point.
pub open spec fn point_violations(
    points: Seq<TelemetryStamp>,
    n: int,
    ingest_time_ms_utc: u64,
    latency_ms: u64,
    config: SemanticConfig,
) -> Seq<ViolationView>
    decreases n,
{
    if n <= 0 {
        Seq::empty()
    } else {
        point_violations(points, n - 1, ingest_time_ms_utc, latency_ms, config) + issue_violations(
            point_issues(points[n - 1], ingest_time_ms_utc, latency_ms, telemetry_config_of(config)),
        )
    }
}

/// The earliest timestamp among the first `n` points (`n >= 1`).
pub open spec fn earliest(points: Seq<TelemetryStamp>, n: int) -> u64
    decreases n,
{
    if n <= 1 {
        points[0].point_timestamp_ms_utc
    } else {
        let m = earliest(points, n - 1);
        if points[n - 1].point_timestamp_ms_utc < m { points[n - 1].point_timestamp_ms_utc } else { m }
    }
}

/// The latest timestamp among the first `n` points (`n >= 1`).
pub open spec fn latest(points: Seq<TelemetryStamp>, n: int) -> u64
    decreases n,
{
    if n <= 1 {
        points[0].point_timestamp_ms_utc
    } else {
        let m = latest(points, n - 1);
        if points[n - 1].point_timestamp_ms_utc > m { points[n - 1].point_timestamp_ms_utc } else { m }
    }
}

/// The timing violations of a snapshot's telemetry: each point's issues, then, for two
/// points or more, an ordering violation when their timestamps spread wider than the
/// skew window.
pub open spec fn timing_violations(
    points: Seq<TelemetryStamp>,
    ingest_time_ms_utc: u64,
    latency_ms: u64,
    config: SemanticConfig,
) -> Seq<ViolationView> {
    point_violations(points, points.len() as int, ingest_time_ms_utc, latency_ms, config) + (if points.len() >= 2
        && latest(points, points.len() as int) - earliest(points, points.len() as int) > config.skew_window_ms {
        seq![
            (
                OperationalSource::Iec61850,
                "event_ordering"@,
                "Telemetry ordering divergence exceeds "@ + decimal(config.skew_window_ms as nat) + "ms window (delta "@
                    + decimal((latest(points, points.len() as int) - earliest(points, points.len() as int)) as nat)
                    + "ms)"@,
                EnforcementAction::QStateIsolation,
            ),
        ]
    } else {
        Seq::empty()
    })
}

/// Checks the telemetry of a snapshot for timing coherence (`timing_violations`): its
/// age and quality point by point, the reported latency, and the spread of timestamps.
pub fn validate_timing_coherence(
    points: &Vec<TelemetryStamp>,
    ingest_time_ms_utc: u64,
    source_latency_ms: u64,
    config: &SemanticConfig,
) -> (v: Vec<SemanticViolation>)
    ensures
        violation_views(v@) == timing_violations(points@, ingest_time_ms_utc, source_latency_ms, *config),
{
    let tv = TelemetryValidationConfig {
        stale_threshold_seconds: config.stale_threshold_ms / 1000,
        max_end_to_end_latency_seconds: config.max_latency_ms / 1000,
    };
    let mut results: Vec<SemanticViolation> = Vec::new();
    let mut i: usize = 0;
    while i < points.len()
        invariant
            i <= points.len(),
            tv == telemetry_config_of(*config),
            violation_views(results@) == point_violations(points@, i as int, ingest_time_ms_utc, source_latency_ms, *config),
        decreases points.len() - i,
    {
        let issues = validate_point(&points[i], ingest_time_ms_utc, source_latency_ms, tv);
        let ghost base = violation_views(results@);
        let mut j: usize = 0;
        while j < issues.len()
            invariant
                j <= issues.len(),
                violation_views(results@) == base + issue_violations(issues@.take(j as int)),
            decreases issues.len() - j,
        {
            let mut m = "Telemetry coherence failure: ".to_string();
            let text = issues[j].issue_text();
            push_str(&mut m, text.as_str());
            push_violation(&mut results, OperationalSource::Dnp3, "temporal_coherence", m, EnforcementAction::Reject);
            assert(issues@.take(j + 1) == issues@.take(j as int).push(issues@[j as int]));
            j = j + 1;
        }
        assert(issues@.take(issues.len() as int) == issues@);
        i = i + 1;
    }
    if points.len() >= 2 {
        let mut lo: u64 = points[0].point_timestamp_ms_utc;
        let mut hi: u64 = points[0].point_timestamp_ms_utc;
        let mut k: usize = 1;
        while k < points.len()
            invariant
                1 <= k <= points.len(),
                lo == earliest(points@, k as int),
                hi == latest(points@, k as int),
                lo <= hi,
            decreases points.len() - k,
        {
            let t = points[k].point_timestamp_ms_utc;
            if t < lo {
                lo = t;
            }
            if t > hi {
                hi = t;
            }
            k = k + 1;
        }
        if hi - lo > config.skew_window_ms {
            let mut m = "Telemetry ordering divergence exceeds ".to_string();
            push_decimal(&mut m, config.skew_window_ms);
            push_str(&mut m, "ms window (delta ");
            push_decimal(&mut m, hi - lo);
            push_str(&mut m, "ms)");
            push_violation(&mut results, OperationalSource::Iec61850, "event_ordering", m, EnforcementAction::QStateIsolation);
        }
    }
    results
}

} // verus!
