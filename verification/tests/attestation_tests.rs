use m_v_r_esprint1::attestation_verifier::{
    deterministic_execute, sha256_vec, verify_log, verify_signature, AttestationLog,
    AttestationRecord,
};
use m_v_r_esprint1::audit_chain::{
    build_audit_chain_ticket, chain_anchor, market_signature_payload, market_snapshot_digest, MarketFile,
};
use m_v_r_esprint1::audit_ticket::{
    compute_manifest_hash, compute_ticket_signature, create_audit_ticket, excluded_paths,
    is_excluded, manifest_path, repository_info, seal_manifest, sort_artifacts_by_path,
    verify_manifest_entries, verify_manifest_hash, verify_ticket, ArtifactEntry, BaselineInfo,
    FileObservation, Manifest, RepositoryInfo,
};
use m_v_r_esprint1::hashing::{sha256_hex, sha256_hex_of_bytes};
use m_v_r_esprint1::tpm_attestation::{
    build_attestation_nonce, build_attestation_nonce_with_context, build_sim_quote,
    parse_sim_quote, tpm_unavailable, verify_quote_nonce_and_signature, SimulatedTpmAttestor,
    TpmAttestor,
};
use m_v_r_esprint1::failure_axis::FailureAxis;
use m_v_r_esprint1::trusted_time::{TimeSource, TrustedTime};
use sha2::{Digest, Sha256};

fn digest(data: &[u8]) -> Vec<u8> {
    Sha256::digest(data).to_vec()
}

fn sign(attest: &[u8]) -> Vec<u8> {
    let mut v = attest.to_vec();
    v.extend_from_slice(b"simulated-ak");
    digest(&v)
}

#[test]
fn sha256_of_known_texts() {
    assert_eq!(
        sha256_hex(""),
        "e3b0c44298fc1c149afbf4c8996fb92427ae41e4649b934ca495991b7852b855"
    );
    assert_eq!(
        sha256_hex("abc"),
        "ba7816bf8f01cfea414140de5dae2223b00361a396177a9cb410ff61f20015ad"
    );
    assert_eq!(sha256_hex_of_bytes(b"abc"), sha256_hex("abc"));
    assert_eq!(sha256_vec(b"abc"), digest(b"abc"));
}

#[test]
fn sim_quote_layout_is_little_endian() {
    let q = build_sim_quote(7, &[0xaa, 0xbb], &[1, 2, 3]);
    let mut expected = b"SIMTPM1".to_vec();
    expected.extend_from_slice(&[7, 0, 0, 0, 2, 0, 0, 0, 0xaa, 0xbb, 3, 0, 0, 0, 1, 2, 3]);
    assert_eq!(q, expected);
}

#[test]
fn quote_round_trip_gives_back_the_nonce() {
    let nonce = vec![9u8; 32];
    let q = build_sim_quote(23, &nonce, &[0u8; 32]);
    assert_eq!(parse_sim_quote(&q).unwrap().nonce, nonce);
    assert_eq!(verify_quote_nonce_and_signature(&q, &sign(&q), &nonce), Ok(()));
}

#[test]
fn quote_errors_are_named() {
    assert_eq!(parse_sim_quote(&[0u8; 5]).err(), Some("ERR_TPM_ATTEST_MALFORMED".to_string()));
    let mut bad_magic = build_sim_quote(1, &[1, 2], &[3]);
    bad_magic[0] = b'X';
    assert_eq!(parse_sim_quote(&bad_magic).err(), Some("ERR_TPM_ATTEST_MAGIC".to_string()));
    let mut long_nonce = build_sim_quote(1, &[1, 2], &[3]);
    long_nonce[11] = 200;
    assert_eq!(parse_sim_quote(&long_nonce).err(), Some("ERR_TPM_ATTEST_NONCE_LEN".to_string()));
    let q = build_sim_quote(1, &[1, 2], &[3]);
    assert_eq!(
        verify_quote_nonce_and_signature(&q, &sign(&q), &[1, 3]),
        Err("ERR_NONCE_MISMATCH".to_string())
    );
    assert_eq!(
        verify_quote_nonce_and_signature(&q, &[0u8; 32], &[1, 2]),
        Err("ERR_TPM_SIGNATURE_INVALID".to_string())
    );
}

#[test]
fn simulated_attestor_quotes_verify() {
    let mut tpm = SimulatedTpmAttestor::new(23);
    assert_eq!(tpm.pcr_index(), 23);
    tpm.extend_pcr(&[5u8; 32]).unwrap();
    let nonce = [4u8; 32];
    let (attest, signature) = tpm.quote(&nonce).unwrap();
    assert_eq!(verify_quote_nonce_and_signature(&attest, &signature, &nonce), Ok(()));
    let mut pcr_input = vec![0u8; 32];
    pcr_input.extend_from_slice(&[5u8; 32]);
    assert_eq!(attest, build_sim_quote(23, &nonce, &digest(&pcr_input)));
}

#[test]
fn attestation_nonce_binds_time_and_context() {
    let t = TrustedTime { wall_time_ns: 1, monotonic_ns: 2, source: TimeSource::PTP, uncertainty_ns: 0 };
    let mut input = vec![1u8, 2, 3, 4];
    input.extend_from_slice(&1u64.to_le_bytes());
    input.extend_from_slice(&2u64.to_le_bytes());
    input.extend_from_slice(&0u32.to_le_bytes());
    assert_eq!(build_attestation_nonce(&[1, 2], &[3, 4], &t), digest(&input));
    assert_ne!(
        build_attestation_nonce_with_context(&[1, 2], &[3, 4], &t, &[9]),
        build_attestation_nonce(&[1, 2], &[3, 4], &t)
    );
    let h = tpm_unavailable("no device");
    assert_eq!(h.axis, FailureAxis::TpmUnavailable);
    assert_eq!(h.message, "no device");
}

fn record(decision: Vec<u8>, prev_signature: Option<&[u8]>) -> AttestationRecord {
    let pcr = vec![7u8; 4];
    let mut signed = decision.clone();
    signed.extend_from_slice(&pcr);
    let signature = digest(&signed);
    let prev_hash = match prev_signature {
        Some(s) => {
            let mut v = s.to_vec();
            v.extend_from_slice(&decision);
            digest(&v)
        }
        None => vec![0u8; 32],
    };
    let input = b"load=42".to_vec();
    let replay = deterministic_execute(&input, &[]);
    AttestationRecord {
        index: Some(0),
        input: Some(input),
        deps_hash: None,
        output_hash: Some(digest(&replay.output)),
        trace_hash: Some(digest(&replay.trace)),
        state_hash: Some(replay.state_hash.clone()),
        decision_hash: decision,
        pcr_digest: pcr,
        signature,
        timestamp: 0,
        prev_hash,
    }
}

#[test]
fn replay_is_two_chained_hashes() {
    let r = deterministic_execute(b"in", b"dep");
    let node1 = digest(b"indep");
    let mut n2 = node1.clone();
    n2.extend_from_slice(b"dep");
    let node2 = digest(&n2);
    let mut trace = node1.clone();
    trace.extend_from_slice(&node2);
    assert_eq!(r.trace, trace);
    assert_eq!(r.output, digest(&trace));
}

#[test]
fn verified_log_reports_record_count() {
    let first = record(vec![1u8; 32], None);
    let second = record(vec![2u8; 32], Some(&first.signature));
    let log = AttestationLog { records: vec![first, second] };
    assert_eq!(verify_log(&log), Ok("✔ VVD checks passed: 2 records".to_string()));
}

#[test]
fn tampered_log_is_refused() {
    let first = record(vec![1u8; 32], None);
    let mut second = record(vec![2u8; 32], Some(&first.signature));
    second.prev_hash[0] ^= 1;
    let log = AttestationLog { records: vec![first, second] };
    assert_eq!(verify_log(&log), Err("VVD-FAIL-02: Tamper detected (chain linkage)".to_string()));

    let mut bad = record(vec![1u8; 32], None);
    bad.signature[0] ^= 1;
    assert_eq!(
        verify_signature(&bad.decision_hash, &bad.pcr_digest, &bad.signature),
        Err("VVD-FAIL-02: Tamper detected (signature)".to_string())
    );

    let mut replayed = record(vec![1u8; 32], None);
    replayed.output_hash = Some(vec![0u8; 32]);
    let log = AttestationLog { records: vec![replayed] };
    assert_eq!(verify_log(&log), Err("VVD-FAIL-01: Replay mismatch".to_string()));
}

#[test]
fn audit_chain_ticket_uses_anchor_prefix() {
    let anchor = [0xabu8; 8];
    let t = build_audit_chain_ticket(3, &anchor, None);
    assert_eq!(t.anchor_hash_hex, "abababababababab");
    assert_eq!(t.ticket_id, "AUDIT-3-ABABABABABAB");
    assert_eq!(t.barcode_payload, "MVR-AUDIT|AUDIT-3-ABABABABABAB|abababababababab");
    let t = build_audit_chain_ticket(1, &[0x0f], Some("ff00"));
    assert_eq!(t.ticket_id, "AUDIT-1-0F");
    assert_eq!(t.barcode_payload, "MVR-AUDIT|AUDIT-1-0F|0f|MC:ff00");
    assert_eq!(chain_anchor(&[], &[1, 2]), &[1, 2]);
    assert_eq!(chain_anchor(&[3], &[1, 2]), &[3]);
}

fn manifest() -> Manifest {
    Manifest {
        repository: RepositoryInfo {
            name: "repo".to_string(),
            commit: "abc123".to_string(),
            tag: Some("v1".to_string()),
        },
        baseline: BaselineInfo { commit: "abc123".to_string(), tag: "v1".to_string() },
        generated_at: 10,
        artifacts: vec![ArtifactEntry {
            path: "a.txt".to_string(),
            sha256: "00ff".to_string(),
            size: 4,
        }],
        manifest_hash: String::new(),
    }
}

#[test]
fn ticket_signature_hashes_seed_and_baseline() {
    let expected = sha256_hex("M.V.R.ESPRINT1-AUDIT-TICKET-V1h||c||t");
    assert_eq!(compute_ticket_signature("h", "c", "t"), expected);
    let mut m = manifest();
    seal_manifest(&mut m, "{}");
    assert_eq!(m.manifest_hash, compute_manifest_hash("{}"));
    let ticket = create_audit_ticket(&m, "s".to_string()).unwrap();
    assert_eq!(ticket.ticket_version, "1.0");
    assert_eq!(
        ticket.ticket_signature,
        compute_ticket_signature(&m.manifest_hash, "abc123", "v1")
    );
}

#[test]
fn manifest_seal_is_checked() {
    let mut m = manifest();
    seal_manifest(&mut m, "payload");
    assert_eq!(verify_manifest_hash(&m, "payload"), Ok(()));
    let err = verify_manifest_hash(&m, "other").unwrap_err();
    assert_eq!(err, format!("expected={}, actual={}", m.manifest_hash, sha256_hex("other")));
}

#[test]
fn ticket_passes_on_matching_repository() {
    let mut m = manifest();
    seal_manifest(&mut m, "payload");
    let ticket = create_audit_ticket(&m, "s".to_string()).unwrap();
    let repo = Ok(RepositoryInfo {
        name: "repo".to_string(),
        commit: "abc123".to_string(),
        tag: Some("v1".to_string()),
    });
    let obs = vec![FileObservation::Digest("00ff".to_string())];
    let report = verify_ticket(&ticket, &Ok("payload".to_string()), &repo, &obs);
    assert_eq!(report.outcome, "PASS");
    assert_eq!(report.details, vec!["Audit ticket verification succeeded".to_string()]);
}

#[test]
fn ticket_fails_on_missing_and_changed_files() {
    let mut m = manifest();
    m.artifacts.push(ArtifactEntry { path: "b.txt".to_string(), sha256: "11".to_string(), size: 1 });
    seal_manifest(&mut m, "payload");
    let ticket = create_audit_ticket(&m, "s".to_string()).unwrap();
    let repo: Result<RepositoryInfo, String> = Err("no git".to_string());
    let obs = vec![FileObservation::Missing, FileObservation::Digest("22".to_string())];
    let report = verify_ticket(&ticket, &Ok("payload".to_string()), &repo, &obs);
    assert_eq!(report.outcome, "FAIL");
    assert_eq!(report.missing_files, vec!["a.txt".to_string()]);
    assert_eq!(report.mismatches.len(), 1);
    let (missing, mismatched) = verify_manifest_entries(&m, &obs);
    assert_eq!(missing, vec!["a.txt".to_string()]);
    assert_eq!(mismatched.len(), 1);
}

#[test]
fn ticket_fails_when_its_manifest_text_cannot_be_produced() {
    let mut m = manifest();
    seal_manifest(&mut m, "payload");
    let ticket = create_audit_ticket(&m, "s".to_string()).unwrap();
    let repo = Ok(RepositoryInfo { name: "repo".to_string(), commit: "abc123".to_string(), tag: Some("v1".to_string()) });
    let obs = vec![FileObservation::Digest("00ff".to_string())];
    let report = verify_ticket(&ticket, &Err("cannot serialize".to_string()), &repo, &obs);
    assert_eq!(report.outcome, "FAIL");
    assert_eq!(report.details, vec!["Manifest hash mismatch: cannot serialize".to_string()]);
}

#[test]
fn ticket_without_tag_passes_with_conditions() {
    let mut m = manifest();
    seal_manifest(&mut m, "payload");
    let ticket = create_audit_ticket(&m, "s".to_string()).unwrap();
    let repo = Ok(RepositoryInfo { name: "repo".to_string(), commit: "abc123".to_string(), tag: None });
    let obs = vec![FileObservation::Digest("00ff".to_string())];
    let report = verify_ticket(&ticket, &Ok("payload".to_string()), &repo, &obs);
    assert_eq!(report.outcome, "PASS WITH CONDITIONS");
}

#[test]
fn manifest_helpers() {
    let sorted = sort_artifacts_by_path(vec![
        ArtifactEntry { path: "z".to_string(), sha256: String::new(), size: 0 },
        ArtifactEntry { path: "a".to_string(), sha256: String::new(), size: 0 },
    ]);
    assert_eq!(sorted[0].path, "a");
    assert_eq!(sorted[1].path, "z");
    assert_eq!(manifest_path("src\\lib.rs"), "src/lib.rs");
    let ex = excluded_paths();
    assert_eq!(ex, vec![".git", "target", "node_modules", "**/.git"]);
    assert!(is_excluded(&vec!["target".to_string(), "x".to_string()], &ex));
    assert!(!is_excluded(&vec!["src".to_string()], &ex));
    let info = repository_info(None, Ok("abc".to_string()), Ok("  v2\nv3\n".to_string())).unwrap();
    assert_eq!(info.name, "m_v_r_esprint1");
    assert_eq!(info.tag, Some("v2".to_string()));
    assert_eq!(repository_info(None, Err("e".to_string()), Ok(String::new())).unwrap_err(), "e");
}

#[test]
fn market_snapshot_hashes_names_and_contents() {
    let files = vec![
        MarketFile { name: "a.csv".to_string(), data: b"1,2".to_vec() },
        MarketFile { name: "b.csv".to_string(), data: Vec::new() },
    ];
    let mut input = b"market-conditions-snapshot-v1".to_vec();
    for f in &files {
        input.extend_from_slice(&(f.name.len() as u32).to_le_bytes());
        input.extend_from_slice(f.name.as_bytes());
        input.extend_from_slice(&digest(&f.data));
    }
    let d = market_snapshot_digest(&files);
    assert_eq!(d, digest(&input));
    let mut payload = b"market-snapshot-signature-v1".to_vec();
    payload.extend_from_slice(b"CMD-1");
    payload.extend_from_slice(&d);
    assert_eq!(market_signature_payload("CMD-1", &d), digest(&payload));
}
