use m_v_r_esprint1::a2e_state_machine::{evaluate_a2e_stages, A2ePolicyContext, A2eState};
use m_v_r_esprint1::reliability_controls::EnforcementCode;
use m_v_r_esprint1::audit_guardian::certify_flags;
use m_v_r_esprint1::barcode::{payload_to_bits, render_ascii_barcode, render_barcode_svg};
use m_v_r_esprint1::grid_audit::decode_hash_hex;
use m_v_r_esprint1::int_parse::{parse_u128, parse_usize};
use m_v_r_esprint1::modeling_expectations_policy::{
    validate_relay_loadability_checks, validate_submission, ContingencyRules,
    InterimUpdateRules, ModelingExpectationsPolicy, PolicyDocument, RarfRules,
    RelayLoadabilityChecks, RelayLoadabilityRules, RelayValidationRules, SubmissionChannelRule,
    SubmissionEnvelope,
};
use m_v_r_esprint1::probe_args::{parse_arg_u128, parse_arg_usize};
use m_v_r_esprint1::sced_chain_cli::{parse_cli_args, code_as_str, format_key, map_cli_parse_error};
use m_v_r_esprint1::sced_offer_chain::{ParseError, RecordKey, VerifyCode};
use m_v_r_esprint1::sda_inputs::{
    build_report, parse_approved_firmware_hashes, parse_hash32_hex, DiagnosticVerificationOutcome,
    VerificationMode,
};
use m_v_r_esprint1::tlbss_v2::{MeasurementEvidence, TlbssEngine, TlbssError, TopologyState};
use m_v_r_esprint1::transition::{transition_packet, TransitionOpcode};
use m_v_r_esprint1::visions_core::{TickRecordFlags, VisionsCore};

fn policy() -> ModelingExpectationsPolicy {
    ModelingExpectationsPolicy {
        document: PolicyDocument {
            title: "Modeling Expectations".to_string(),
            version: "7.8".to_string(),
            source_file: "policy.pdf".to_string(),
            extracted_text_file: "policy.txt".to_string(),
        },
        submission_channels: vec![
            SubmissionChannelRule {
                participant: "QSE".to_string(),
                domain: "telemetry_change".to_string(),
                required_channel: "NOMCR".to_string(),
                source_excerpt: String::new(),
            },
            SubmissionChannelRule {
                participant: "QSE".to_string(),
                domain: "telemetry_change".to_string(),
                required_channel: "OTHER".to_string(),
                source_excerpt: String::new(),
            },
            SubmissionChannelRule {
                participant: "RE".to_string(),
                domain: "network_model_change".to_string(),
                required_channel: "RARF".to_string(),
                source_excerpt: String::new(),
            },
        ],
        rarf_rules: RarfRules { failed_validation_rejected: true, source_excerpt: String::new() },
        interim_update_rules: InterimUpdateRules {
            accepted_reasons: vec!["emergency".to_string()],
            discretionary_acceptance: false,
            source_excerpt: String::new(),
        },
        contingency_rules: ContingencyRules {
            contingency_component_flag_managed_by_submitter: true,
            source_excerpt: String::new(),
        },
        relay_loadability_rules: RelayLoadabilityRules {
            applies_to_equipment: vec!["line".to_string(), "transformer".to_string()],
            co_owned_uses_most_conservative_value: true,
            not_monitored_by_relay_sentinel_value: 99999,
            validation: RelayValidationRules {
                must_be_greater_than_static_15_min: true,
                must_be_greater_than_dynamic_20f_15_min_if_present: true,
            },
        },
    }
}

fn envelope(participant: &str, domain: &str, channel: &str) -> SubmissionEnvelope {
    SubmissionEnvelope {
        participant: participant.to_string(),
        domain: domain.to_string(),
        channel: channel.to_string(),
        is_interim_update: false,
        interim_reason: None,
        rarf_validation_passed: None,
    }
}

#[test]
fn rejects_wrong_submission_channel() {
    let policy = policy();
    let env = SubmissionEnvelope {
        participant: "QSE".to_string(),
        domain: "telemetry_change".to_string(),
        channel: "RARF".to_string(),
        is_interim_update: false,
        interim_reason: None,
        rarf_validation_passed: None,
    };
    let violations = validate_submission(&policy, &env);
    assert!(violations.iter().any(|v| v.code == "CHANNEL_MISMATCH"));
    assert_eq!(violations[0].message, "QSE telemetry_change must use channel NOMCR, got RARF");
}

#[test]
fn rejects_failed_rarf_validation() {
    let policy = policy();
    let env = SubmissionEnvelope {
        participant: "RE".to_string(),
        domain: "network_model_change".to_string(),
        channel: "RARF".to_string(),
        is_interim_update: false,
        interim_reason: None,
        rarf_validation_passed: Some(false),
    };
    let violations = validate_submission(&policy, &env);
    assert!(violations.iter().any(|v| v.code == "RARF_VALIDATION_FAILED"));
}

#[test]
fn first_listed_channel_rule_governs() {
    let v = validate_submission(&policy(), &envelope("QSE", "telemetry_change", "NOMCR"));
    assert!(v.is_empty());
    let v = validate_submission(&policy(), &envelope("X", "telemetry_change", "ANY"));
    assert!(v.is_empty());
}

#[test]
fn interim_update_needs_accepted_reason() {
    let mut env = envelope("RE", "network_model_change", "RARF");
    env.is_interim_update = true;
    let v = validate_submission(&policy(), &env);
    assert_eq!(v.len(), 1);
    assert_eq!(v[0].code, "INTERIM_REASON_NOT_ALLOWED");
    env.interim_reason = Some("emergency".to_string());
    assert!(validate_submission(&policy(), &env).is_empty());
}

#[test]
fn relay_checks_follow_policy() {
    let checks = RelayLoadabilityChecks {
        equipment_type: "line".to_string(),
        exceeds_static_15_min: false,
        exceeds_dynamic_20f_15_min: Some(true),
    };
    let v = validate_relay_loadability_checks(&policy(), &checks);
    assert_eq!(v.len(), 1);
    assert_eq!(v[0].code, "RELAY_NOT_GT_STATIC15");
    let checks = RelayLoadabilityChecks {
        equipment_type: "line".to_string(),
        exceeds_static_15_min: true,
        exceeds_dynamic_20f_15_min: Some(false),
    };
    let v = validate_relay_loadability_checks(&policy(), &checks);
    assert_eq!(v.len(), 1);
    assert_eq!(v[0].code, "RELAY_NOT_GT_DYNAMIC20F");
    let checks = RelayLoadabilityChecks {
        equipment_type: "breaker".to_string(),
        exceeds_static_15_min: false,
        exceeds_dynamic_20f_15_min: Some(false),
    };
    assert!(validate_relay_loadability_checks(&policy(), &checks).is_empty());
}

#[test]
fn report_mapping_is_unambiguous() {
    let ok = build_report(VerificationMode::SingleFileHash, "G0000", DiagnosticVerificationOutcome::Valid);
    assert_eq!(ok.status, "VALID");
    assert_eq!(ok.trust, "VERIFIED");
    assert_eq!(ok.reason, "NONE");

    let bad = build_report(
        VerificationMode::SingleFileHash,
        "G0901",
        DiagnosticVerificationOutcome::UnrecognizedFirmware,
    );
    assert_eq!(bad.status, "INVALID");
    assert_eq!(bad.reason, "UNRECOGNIZED_FIRMWARE");
    assert_eq!(bad.mode, "SINGLE_FILE_HASH");
    assert_eq!(bad.dtc, "G0901");
}

#[test]
fn parse_hash32_hex_enforces_exact_length() {
    let err = parse_hash32_hex("aa", "canonical hash").expect_err("short hash must fail");
    assert!(err.contains("32 bytes"));
    assert_eq!(err, "canonical hash must be 32 bytes (64 hex chars)");
}

#[test]
fn hash_inputs_decode_hex() {
    let hex = "00".repeat(31) + "ff";
    let h = parse_hash32_hex(&hex, "x").unwrap();
    assert_eq!(h.len(), 32);
    assert_eq!(h[31], 0xff);
    let err = parse_hash32_hex("zz", "x").unwrap_err();
    assert!(err.starts_with("invalid x hex: "));
    let list = parse_approved_firmware_hashes(&format!(" {} ,, {}", hex, hex)).unwrap();
    assert_eq!(list.len(), 2);
    assert!(parse_approved_firmware_hashes("").unwrap().is_empty());
    assert!(parse_approved_firmware_hashes("abcd").unwrap_err().contains("firmware hash 'abcd'"));
    assert_eq!(decode_hash_hex(&hex).unwrap()[31], 0xff);
    assert_eq!(decode_hash_hex("0aFF").unwrap_err(), "RI04 hash must be 32 bytes (64 hex chars)");
    assert!(decode_hash_hex("0").is_err());
}

#[test]
fn integer_arguments_parse() {
    assert_eq!(parse_u128("340282366920938463463374607431768211455"), Some(u128::MAX));
    assert_eq!(parse_u128("340282366920938463463374607431768211456"), None);
    assert_eq!(parse_u128("12a"), None);
    assert_eq!(parse_u128(""), None);
    assert_eq!(parse_usize("42"), Some(42));
    let args: Vec<String> = ["probe", "--iters", "1000", "--warmup", "x"].iter().map(|s| s.to_string()).collect();
    assert_eq!(parse_arg_u128(&args, "--iters"), Some(1000));
    assert_eq!(parse_arg_usize(&args, "--warmup"), None);
    assert_eq!(parse_arg_usize(&args, "--missing"), None);
}

#[test]
fn cli_reads_verify_command() {
    let args: Vec<String> = ["sced_chain", "verify", "in.csv", "abc", "--records-total", "7"]
        .iter()
        .map(|s| s.to_string())
        .collect();
    let cli = parse_cli_args(&args).unwrap();
    assert_eq!(cli.input_path, "in.csv");
    assert_eq!(cli.expected_hash, Some("abc".to_string()));
    assert_eq!(cli.expected_records_total, Some(7));
    let bad: Vec<String> = ["sced_chain", "check", "in.csv"].iter().map(|s| s.to_string()).collect();
    assert_eq!(parse_cli_args(&bad).unwrap_err(), "Only 'verify' command is supported.");
    let extra: Vec<String> = ["p", "verify", "a", "b", "c"].iter().map(|s| s.to_string()).collect();
    assert_eq!(parse_cli_args(&extra).unwrap_err(), "Unexpected argument 'c'");
    assert_eq!(code_as_str(VerifyCode::HashMismatch), "HASH_MISMATCH");
    let key = RecordKey {
        scd_timestamp: "t".to_string(),
        repeat_hour_flag: true,
        resource_name: "R".to_string(),
        offer_type: "O".to_string(),
    };
    assert_eq!(format_key(&key), "(t,true,R,O)");
    let e = map_cli_parse_error(ParseError::InvalidBoolean("maybe".to_string()));
    assert_eq!(e.code, VerifyCode::InvalidBoolean);
    assert_eq!(e.message, "invalid boolean 'maybe'");
}

#[test]
fn barcode_encodes_bytes_between_guards() {
    let bits = payload_to_bits("A");
    assert_eq!(bits.len(), 7 + 9 + 5);
    assert_eq!(&bits[7..16], &[false, true, false, false, false, false, false, true, false]);
    let ascii = render_ascii_barcode("A");
    assert_eq!(ascii, "||| | | | |     | || ||||");
    let svg = render_barcode_svg("A");
    assert!(svg.starts_with("<svg xmlns=\"http://www.w3.org/2000/svg\" width=\"66\""));
    assert!(svg.ends_with("</svg>"));
}

#[test]
fn transition_packet_has_checksum() {
    assert_eq!(TransitionOpcode::ExternalTransitionSignal.code(), 0xE7);
    let p = transition_packet(1, 2);
    assert_eq!(p.len(), 16);
    assert_eq!(&p[0..12], &[0xE7, 1, 2, 0, 1, 0, 0, 0, 0, 0, 0, 0]);
    let sum: u32 = p[0..12].iter().map(|b| *b as u32).sum();
    assert_eq!(&p[12..16], &sum.to_le_bytes());
}

#[test]
fn a2e_context_knows_validated_equipment() {
    let ctx = A2ePolicyContext { validated_cim_equipment_ids: vec!["GEN_1".to_string()] };
    assert!(ctx.is_validated("GEN_1"));
    assert!(!ctx.is_validated("GEN_2"));
}

#[test]
fn guardian_flags_decide_admissibility_and_veto() {
    let d = certify_flags(false, false, false, true, true, 9);
    assert!(d.admissible);
    assert!(!d.l7_veto_fire);
    assert_eq!(d.l7_veto_tick, None);
    let d = certify_flags(false, false, true, true, true, 9);
    assert!(!d.admissible);
    assert!(d.l7_veto_fire);
    assert_eq!(d.l7_veto_tick, Some(9));
    let d = certify_flags(true, false, false, true, true, 9);
    assert!(!d.admissible);
    assert!(d.below_threshold);
}

#[test]
fn visions_gate_dispatches_only_admitted_ticks() {
    let core = VisionsCore::new();
    let admitted = certify_flags(false, false, false, false, false, 3);
    let calm = TickRecordFlags {
        boundary_condition: false,
        coherence_saturated: false,
        has_dimensional_transition: false,
        state: [5, -2, 7],
    };
    let d = core.route(3, &calm, admitted);
    assert!(d.allow_dispatch);
    assert!(!d.command.safe_state);
    assert_eq!(d.command.tick, 3);
    assert_eq!(d.command.state_vector, [5, -2, 7]);
    let extreme = TickRecordFlags {
        boundary_condition: true,
        coherence_saturated: true,
        has_dimensional_transition: true,
        state: [5, -2, 7],
    };
    let d = core.route(4, &extreme, admitted);
    assert!(d.externalize_to_entity_c);
    assert!(!d.allow_dispatch);
    assert!(d.command.safe_state);
    assert_eq!(d.command.tick, 4);
    assert_eq!(d.command.state_vector, [0, 0, 0]);
}

fn measurement(quality_ok: bool) -> MeasurementEvidence {
    MeasurementEvidence {
        source: "scada".to_string(),
        units: "kV".to_string(),
        point: "bus-1".to_string(),
        provenance: "src-1".to_string(),
        quality_in_range: quality_ok,
        quality_text: if quality_ok { "1".to_string() } else { "0".to_string() },
    }
}

#[test]
fn evidence_checks_classify_failures() {
    let engine = TlbssEngine::new();
    assert_eq!(engine.validate_evidence(&vec![measurement(true)], "evidence-001"), Ok(()));
    assert_eq!(
        engine.validate_evidence(&vec![], "evidence-006"),
        Err(TlbssError::EvidenceFailure("measurement set is empty".to_string()))
    );
    assert_eq!(
        engine.validate_evidence(&vec![measurement(false)], "evidence-002"),
        Err(TlbssError::EvidenceFailure(
            "measurement quality 0 is outside valid range [0.0, 1.0]".to_string()
        ))
    );
    let mut no_units = measurement(true);
    no_units.units = String::new();
    assert_eq!(
        engine.validate_evidence(&vec![measurement(true), no_units], "e"),
        Err(TlbssError::EvidenceFailure("measurement units are not specified".to_string()))
    );
    assert_eq!(
        engine.validate_evidence(&vec![measurement(true)], ""),
        Err(TlbssError::EvidenceFailure("evidence provenance identifier is missing".to_string()))
    );
}

#[test]
fn topology_checks_need_named_switches() {
    let engine = TlbssEngine::default();
    assert_eq!(engine.verify_topology(&TopologyState::from_switches(vec![("br-1", true)])), Ok(()));
    assert_eq!(
        engine.verify_topology(&TopologyState::from_switches(vec![])),
        Err(TlbssError::TopologyFailure(
            "topology cannot be reconstructed from available evidence".to_string()
        ))
    );
    assert_eq!(
        engine.verify_topology(&TopologyState::from_switches(vec![("br-1", true), ("", false)])),
        Err(TlbssError::TopologyFailure("switch identifier is missing".to_string()))
    );
    assert_eq!(
        TlbssError::ReconstructionFailure("x".to_string()).message_text(),
        "Reconstruction Failure (Class III): x"
    );
}

#[test]
fn replay_identity_is_deterministic() {
    let topology = TopologyState::from_switches(vec![("br-1", true), ("sw-1", false)]);
    let engine = TlbssEngine::new();
    let a = engine.replay_identity("evidence-001", 26, &topology, "V=120.000000");
    let b = engine.replay_identity("evidence-001", 26, &topology, "V=120.000000");
    assert_eq!(a, b);
    assert_eq!(a, "2.0.0:evidence-001:1a:2:br-1=true:sw-1=false:V=120.000000");
    assert_eq!(TlbssEngine::default().replay_identity("p", 0, &TopologyState::from_switches(vec![]), "s"), ":p:0:0:s");
    assert_eq!(engine.advisory_id("evidence-004"), "adv-evidence-004");
}

#[test]
fn evidence_is_checked_before_topology() {
    let engine = TlbssEngine::new();
    let empty_topology = TopologyState::from_switches(vec![]);
    assert_eq!(
        engine.validate_evidence_and_topology(&vec![measurement(false)], "evidence-002", &empty_topology),
        Err(TlbssError::EvidenceFailure("measurement quality 0 is outside valid range [0.0, 1.0]".to_string()))
    );
    assert_eq!(
        engine.validate_evidence_and_topology(&vec![measurement(true)], "evidence-002", &empty_topology),
        Err(TlbssError::TopologyFailure("topology cannot be reconstructed from available evidence".to_string()))
    );
}

fn a2e_ctx() -> A2ePolicyContext {
    A2ePolicyContext { validated_cim_equipment_ids: vec!["LINE_A".to_string()] }
}

#[test]
fn a2e_stays_staged_before_energize_day() {
    let o = evaluate_a2e_stages("LINE_A", "2026-01-01", "2026-01-02", true, &a2e_ctx(), false);
    assert_eq!(o.state, A2eState::Staged);
    assert_eq!(o.trace, vec![A2eState::Staged]);
    assert_eq!(o.a2e_permission_bit, 0);
    assert!(!o.flow_checked);
}

#[test]
fn a2e_rejects_unknown_equipment_with_halt_cip001() {
    let o = evaluate_a2e_stages("LINE_B", "d", "d", true, &a2e_ctx(), false);
    assert_eq!(o.state, A2eState::Rejected);
    assert_eq!(o.trace, vec![A2eState::Staged, A2eState::Validating, A2eState::Rejected]);
    assert_eq!(o.event.unwrap().code, EnforcementCode::HaltCip001);
    assert_eq!(o.reason, "topology consistency check failed");
}

#[test]
fn a2e_rejects_flow_over_threshold_and_approves_otherwise() {
    let o = evaluate_a2e_stages("LINE_A", "d", "d", false, &a2e_ctx(), true);
    assert_eq!(o.state, A2eState::Rejected);
    assert_eq!(o.reason, "predictive safety check failed");
    assert!(o.flow_checked);
    let o = evaluate_a2e_stages("LINE_A", "d", "d", false, &a2e_ctx(), false);
    assert_eq!(o.state, A2eState::Approved);
    assert_eq!(o.trace, vec![A2eState::Validating, A2eState::Approved]);
    assert_eq!(o.a2e_permission_bit, 1);
    assert!(o.event.is_none());
}
