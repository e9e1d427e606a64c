use m_v_r_esprint1::audit_ticket::{current_unix_timestamp, unix_seconds_from_nanos};
use m_v_r_esprint1::cim_mapping_data::mapping_data_with_notes;
use m_v_r_esprint1::cim_mapping_rules::{derive_migration_actions, notes_entries_by_kind, MappingAction, MappingRuleKind};
use m_v_r_esprint1::clock::{clock_reading, micros_of_reading, nanos_of_reading_capped};
use m_v_r_esprint1::compliance::{validate_sced_offer_chain, verify_stability_counter};
use m_v_r_esprint1::deterministic_core::{DetMap, DetScheduler, DetTime};
use m_v_r_esprint1::failure_axis::FailureAxis;
use m_v_r_esprint1::hashing::sha256_hex;
use m_v_r_esprint1::operational_semantics::{
    operator_command_context_hash, snapshot_identity, timing_identity, OperatorCommandContext, SemanticConfig,
    SemanticSpecification,
};
use m_v_r_esprint1::ptp_clock::PtpClock;
use m_v_r_esprint1::runtime_checks::{scenario_conditions, topology_source, CycleMetrics, RuntimeState, TopologySource};
use m_v_r_esprint1::telemetry::BreakerState;
use m_v_r_esprint1::sced_chain;
use m_v_r_esprint1::sced_offer_chain::{build_hash_chain, ParseError, ScedResourceOfferRecord};
use m_v_r_esprint1::trusted_time::{SystemTimeProvider, TimeSource};

fn record(ts: &str, resource: &str, first: &str) -> ScedResourceOfferRecord {
    let mut fields = std::array::from_fn::<_, 48, _>(|_| "0".to_string());
    fields[0] = first.to_string();
    ScedResourceOfferRecord {
        scd_timestamp: ts.to_string(),
        repeat_hour_flag: false,
        resource_name: resource.to_string(),
        offer_type: "OFFNS".to_string(),
        prices_and_quantities: fields,
    }
}

#[test]
fn stability_counter_must_match_the_tick_count() {
    assert!(verify_stability_counter(100, 100).is_ok());
    assert!(verify_stability_counter(255, 300).is_ok());
    let over = verify_stability_counter(200, 100).unwrap_err();
    assert_eq!(over.axis, FailureAxis::InternalInvariantBreach);
    assert_eq!(over.message, "Stability counter violation");
    assert!(verify_stability_counter(99, 100).is_err());
    assert!(verify_stability_counter(254, 300).is_err());
}

#[test]
fn clock_readings_convert_to_each_unit() {
    assert_eq!(unix_seconds_from_nanos(Ok(5_999_999_999)), Ok(5));
    assert_eq!(
        unix_seconds_from_nanos(Err("second time provided was later than self".to_string())),
        Err("second time provided was later than self".to_string())
    );
    assert_eq!(clock_reading(Ok(3)), Some(3));
    assert_eq!(clock_reading(Err("e".to_string())), None);
    assert_eq!(DetTime::from_clock_reading(Some(7_654_321)).as_millis(), 7);
    assert_eq!(DetTime::from_clock_reading(None).as_millis(), 0);
    assert_eq!(micros_of_reading(Some(12_345)), 12);
    assert_eq!(micros_of_reading(None), 0);
    assert_eq!(nanos_of_reading_capped(Some(u128::MAX)), u64::MAX);
    assert_eq!(nanos_of_reading_capped(Some(42)), 42);
    let t = SystemTimeProvider::reading_from_clock(Some(1_000));
    assert_eq!(t.wall_time_ns, 1_000);
    assert_eq!(t.monotonic_ns, 1_000);
    assert_eq!(t.source, TimeSource::LOCAL);
    assert_eq!(t.uncertainty_ns, 1_000_000);
    assert!(current_unix_timestamp().unwrap() > 1_600_000_000);
}

#[test]
fn ptp_clock_reads_microseconds_past_the_last_reading() {
    let mut clock = PtpClock::new();
    assert_eq!(clock.advance(50), 50);
    assert_eq!(clock.advance(20), 51);
    let mut wall = PtpClock::new();
    let r = wall.read_micros().unwrap();
    // Microseconds since the epoch, not milliseconds.
    assert!(r > 1_600_000_000_000_000);
}

#[test]
fn offer_chain_validation_reports_the_least_duplicated_key() {
    let records = vec![
        record("2026-01-02", "B", "1"),
        record("2026-01-02", "B", "2"),
        record("2026-01-01", "A", "3"),
        record("2026-01-01", "A", "4"),
    ];
    match validate_sced_offer_chain(records) {
        Err(ParseError::DuplicatePrimaryKey(ts, flag, resource, offer)) => {
            assert_eq!(ts, "2026-01-01");
            assert!(!flag);
            assert_eq!(resource, "A");
            assert_eq!(offer, "OFFNS");
        }
        other => panic!("unexpected {:?}", other.map(|c| c.len())),
    }
}

#[test]
fn flat_chain_names_the_duplicated_key() {
    let records = vec![record("2026-01-02", "B", "1"), record("2026-01-02", "B", "2")];
    let err = sced_chain::build_hash_chain(records).unwrap_err();
    assert_eq!(err.to_string(), "duplicate primary key detected: (2026-01-02, false, B, OFFNS)");
}

#[test]
fn chain_does_not_depend_on_input_order() {
    let a = vec![record("2026-01-02", "B", "1"), record("2026-01-01", "A", "2"), record("2026-01-01", "C", "3")];
    let b = vec![record("2026-01-01", "C", "3"), record("2026-01-02", "B", "1"), record("2026-01-01", "A", "2")];
    let ca = build_hash_chain(a).unwrap();
    let cb = build_hash_chain(b).unwrap();
    assert_eq!(ca.len(), cb.len());
    for (x, y) in ca.iter().zip(cb.iter()) {
        assert_eq!(x.key, y.key);
        assert_eq!(x.record_hash, y.record_hash);
        assert_eq!(x.chain_hash, y.chain_hash);
    }
    assert_eq!(ca[0].key.2, "A");
}

#[test]
fn detmap_insert_grows_only_for_new_keys() {
    let mut m = DetMap::new();
    assert_eq!(m.insert(1, "a"), None);
    assert_eq!(m.insert(2, "b"), None);
    assert_eq!(m.len(), 2);
    assert_eq!(m.insert(1, "c"), Some("a"));
    assert_eq!(m.len(), 2);
    assert_eq!(m.get(&1), Some(&"c"));
}

#[test]
fn migration_actions_are_few_and_distinct() {
    for e in mapping_data_with_notes() {
        let actions = derive_migration_actions(&e);
        assert!(actions.len() <= 2);
        if actions.len() == 2 {
            assert_ne!(actions[0], actions[1]);
            assert_eq!(actions[1], MappingAction::ManualReview);
        }
    }
}

#[test]
fn notes_lists_of_different_kinds_share_no_row() {
    let units = notes_entries_by_kind(MappingRuleKind::UnitNormalization);
    let moved = notes_entries_by_kind(MappingRuleKind::AttributeMoved);
    assert!(!units.is_empty());
    let key = |e: &m_v_r_esprint1::cim_mapping_data::MappingEntry| {
        (
            e.instance_type_cim10,
            e.instance_type_cim16,
            e.attr_source_cim10,
            e.attr_source_cim16,
            e.attr_name_cim10,
            e.attr_name_cim16,
            e.mapping_notes,
        )
    };
    for u in &units {
        assert!(!moved.iter().any(|m| key(m) == key(u)));
    }
}

#[test]
fn topology_source_refuses_operational_mode_without_a_model() {
    assert_eq!(topology_source("operational", true).unwrap(), TopologySource::CimModel);
    assert_eq!(topology_source("replay", false).unwrap(), TopologySource::Empty);
    let h = topology_source("operational", false).unwrap_err();
    assert_eq!(h.axis, FailureAxis::InternalInvariantBreach);
    assert_eq!(h.message, "Operational runtime requires authoritative CIM topology input");
}

#[test]
fn cycle_metrics_count_decisions() {
    let mut m = CycleMetrics::new();
    m.start_cycle();
    assert_eq!(m.finish_cycle(true), RuntimeState::Nominal);
    m.start_cycle();
    assert_eq!(m.finish_cycle(false), RuntimeState::Degraded);
    m.start_cycle();
    assert_eq!(m.cycles_executed, 3);
    assert_eq!(m.admissible_decisions, 1);
    assert_eq!(m.inadmissible_decisions, 1);
}

#[test]
fn snapshot_identities_hash_their_payloads() {
    let cmd = OperatorCommandContext {
        operator_id: "op1".to_string(),
        role: "dispatcher".to_string(),
        command: "open BRK_1".to_string(),
        authority_level: 7,
    };
    assert_eq!(operator_command_context_hash(&cmd), sha256_hex("op1|dispatcher|open BRK_1|7"));
    assert_eq!(timing_identity(30000, 500), sha256_hex("30000|500"));
    let config = SemanticConfig::default();
    let id = snapshot_identity(
        "TOPO".to_string(),
        None,
        "PROV".to_string(),
        &Some(cmd),
        30000,
        500,
        Some("replay".to_string()),
        &config,
    );
    let spec = SemanticSpecification::current();
    assert_eq!(id.semantic_spec_identity, spec.identity_hash);
    assert_eq!(id.semantic_configuration_hash, config.identity_hash());
    assert_eq!(id.timing_identity, sha256_hex("30000|500"));
    let payload = format!(
        "topology_identity=TOPO|topology_lineage_hash=NONE|semantic_spec_identity={}|semantic_spec_version=1.0.0|semantic_configuration_hash={}|constraint_lineage_hash={}|telemetry_provenance_hash=PROV|operator_command_context_hash={}|timing_identity={}|replay_equivalence_metadata=replay|ingest_time_ms_utc=30000|source_latency_ms=500",
        spec.identity_hash,
        config.identity_hash(),
        spec.constraint_lineage_hash,
        id.operator_command_context_hash.clone().unwrap(),
        id.timing_identity,
    );
    assert_eq!(id.snapshot_identity, sha256_hex(&payload));
}

#[test]
fn reordered_batch_reports_the_same_duplicate() {
    let a = vec![record("2026-01-03", "C", "1"), record("2026-01-01", "A", "2"), record("2026-01-01", "A", "3"), record("2026-01-03", "C", "4")];
    let b = vec![record("2026-01-03", "C", "4"), record("2026-01-01", "A", "3"), record("2026-01-03", "C", "1"), record("2026-01-01", "A", "2")];
    let key = |r: Result<Vec<m_v_r_esprint1::sced_offer_chain::ChainedRecord>, ParseError>| match r {
        Err(ParseError::DuplicatePrimaryKey(ts, _, resource, _)) => (ts, resource),
        _ => panic!("expected a duplicate"),
    };
    assert_eq!(key(build_hash_chain(a)), key(build_hash_chain(b)));
}

#[test]
fn scheduler_hands_out_least_key_newest_first() {
    let mut s: DetScheduler<&str> = DetScheduler::new();
    assert!(!s.has_pending());
    s.enqueue(5, "a");
    s.enqueue(2, "b");
    s.enqueue(2, "c");
    s.enqueue(9, "d");
    assert!(s.has_pending());
    assert_eq!(s.dequeue_next(), Some("c"));
    assert_eq!(s.dequeue_next(), Some("b"));
    assert_eq!(s.dequeue_next(), Some("a"));
    s.step();
    assert_eq!(s.tick, 1);
    assert_eq!(s.dequeue_next(), Some("d"));
    assert_eq!(s.dequeue_next(), None);
    assert!(!s.has_pending());
}

#[test]
fn scenarios_set_latency_events_and_command() {
    let nominal = scenario_conditions(None);
    assert_eq!(nominal.source_latency_ms, 500);
    assert!(nominal.topology_events.is_empty());
    assert!(nominal.operator_command.is_none());
    assert_eq!(scenario_conditions(Some("delayed_scada")).source_latency_ms, 30_000);
    let relay = scenario_conditions(Some("relay_disagreement"));
    assert_eq!(relay.topology_events.len(), 2);
    assert_eq!(relay.topology_events[1].equipment_id, "BRK_1");
    assert_eq!(relay.topology_events[1].breaker_state, BreakerState::Open);
    assert_eq!(relay.topology_events[1].timestamp_ms_utc, 1005);
    let cmd = scenario_conditions(Some("command_mismatch")).operator_command.unwrap();
    assert_eq!(cmd.role, "guest");
    assert_eq!(cmd.authority_level, 1);
    assert_eq!(scenario_conditions(Some("unknown")).source_latency_ms, 500);
}
