//! The independent verifier: replays each attested decision and checks every record
//! of an attestation log against its signature, its predecessor and its replay.
use vstd::prelude::*;
use crate::hashing::{extend_bytes, sha256, sha256_spec};
use crate::text::{push_str, push_decimal, decimal};

verus! {

/// The SHA-256 digest of a byte string.
pub fn sha256_vec(input: &[u8]) -> (out: Vec<u8>)
    ensures
        out@ == sha256_spec(input@),
{
    sha256(input)
}

/// One attested decision as the log records it.
#[derive(Debug)]
pub struct AttestationRecord {
    pub index: Option<u64>,
    pub input: Option<Vec<u8>>,
    pub deps_hash: Option<Vec<u8>>,
    pub output_hash: Option<Vec<u8>>,
    pub trace_hash: Option<Vec<u8>>,
    pub state_hash: Option<Vec<u8>>,
    pub decision_hash: Vec<u8>,
    pub pcr_digest: Vec<u8>,
    pub signature: Vec<u8>,
    pub timestamp: u64,
    pub prev_hash: Vec<u8>,
}

/// An attestation log: its records in order.
#[derive(Debug)]
pub struct AttestationLog {
    pub records: Vec<AttestationRecord>,
}

/// What a replay produces.
#[derive(Debug)]
pub struct ReplayResult {
    pub output: Vec<u8>,
    pub trace: Vec<u8>,
    pub state_hash: Vec<u8>,
}

/// The trace of a replay: two chained hash nodes over the input and dependencies.
pub open spec fn replay_trace(input: Seq<u8>, deps: Seq<u8>) -> Seq<u8> {
    let node1 = sha256_spec(input + deps);
    let node2 = sha256_spec(node1 + deps);
    node1 + node2
}

/// The output of a replay: the hash of its trace.
pub open spec fn replay_output(input: Seq<u8>, deps: Seq<u8>) -> Seq<u8> {
    sha256_spec(replay_trace(input, deps))
}

/// The state hash of a replay: the hash of the input, dependencies and trace.
pub open spec fn replay_state(input: Seq<u8>, deps: Seq<u8>) -> Seq<u8> {
    sha256_spec(input + deps + replay_trace(input, deps))
}

/// Executes a decision deterministically from its input and dependency hash.
pub fn deterministic_execute(input: &[u8], deps_hash: &[u8]) -> (r: ReplayResult)
    ensures
        r.trace@ == replay_trace(input@, deps_hash@),
        r.output@ == replay_output(input@, deps_hash@),
        r.state_hash@ == replay_state(input@, deps_hash@),
{
    let mut step1: Vec<u8> = Vec::new();
    extend_bytes(&mut step1, input);
    extend_bytes(&mut step1, deps_hash);
    let node1 = sha256(step1.as_slice());

    let mut step2: Vec<u8> = Vec::new();
    extend_bytes(&mut step2, node1.as_slice());
    extend_bytes(&mut step2, deps_hash);
    let node2 = sha256(step2.as_slice());

    let mut trace: Vec<u8> = Vec::new();
    extend_bytes(&mut trace, node1.as_slice());
    extend_bytes(&mut trace, node2.as_slice());

    let output = sha256(trace.as_slice());

    let mut state_input: Vec<u8> = Vec::new();
    extend_bytes(&mut state_input, input);
    extend_bytes(&mut state_input, deps_hash);
    extend_bytes(&mut state_input, trace.as_slice());
    let state_hash = sha256(state_input.as_slice());

    ReplayResult { output, trace, state_hash }
}

/// The input a record is replayed from: its input, else its decision hash.
pub open spec fn replay_input(r: AttestationRecord) -> Seq<u8> {
    match r.input {
        Some(i) => i@,
        None => r.decision_hash@,
    }
}

/// The dependencies a record is replayed with: its dependency hash, else nothing.
pub open spec fn replay_deps(r: AttestationRecord) -> Seq<u8> {
    match r.deps_hash {
        Some(d) => d@,
        None => Seq::empty(),
    }
}

/// Replays an attested decision from what its record holds. It never fails.
pub fn deterministic_replay(record: &AttestationRecord) -> (r: Result<ReplayResult, String>)
    ensures
        r matches Ok(res) && res.trace@ == replay_trace(replay_input(*record), replay_deps(*record))
            && res.output@ == replay_output(replay_input(*record), replay_deps(*record)) && res.state_hash@
            == replay_state(replay_input(*record), replay_deps(*record)),
{
    let empty: Vec<u8> = Vec::new();
    let input: &[u8] = match &record.input {
        Some(i) => i.as_slice(),
        None => record.decision_hash.as_slice(),
    };
    let deps: &[u8] = match &record.deps_hash {
        Some(d) => d.as_slice(),
        None => empty.as_slice(),
    };
    Ok(deterministic_execute(input, deps))
}

/// Whether a record's signature is the hash of its decision hash and PCR digest.
pub open spec fn signature_holds(decision_hash: Seq<u8>, pcr_digest: Seq<u8>, signature: Seq<u8>) -> bool {
    sha256_spec(decision_hash + pcr_digest) == signature
}

fn bytes_eq(a: &[u8], b: &[u8]) -> (r: bool)
    ensures
        r == (a@ == b@),
{
    if a.len() != b.len() {
        return false;
    }
    let mut i: usize = 0;
    while i < a.len()
        invariant
            a.len() == b.len(),
            i <= a.len(),
            forall|j: int| 0 <= j < i ==> a@[j] == b@[j],
        decreases a.len() - i,
    {
        if a[i] != b[i] {
            return false;
        }
        i = i + 1;
    }
    assert(a@ == b@);
    true
}

/// Checks a record's signature over its decision hash and PCR digest.
pub fn verify_signature(decision_hash: &[u8], pcr_digest: &[u8], signature: &[u8]) -> (r: Result<(), String>)
    ensures
        r is Ok <==> signature_holds(decision_hash@, pcr_digest@, signature@),
        r matches Err(e) ==> e@ == "VVD-FAIL-02: Tamper detected (signature)"@,
{
    let mut combined: Vec<u8> = Vec::new();
    extend_bytes(&mut combined, decision_hash);
    extend_bytes(&mut combined, pcr_digest);
    let expected = sha256(combined.as_slice());
    if !bytes_eq(expected.as_slice(), signature) {
        return Err("VVD-FAIL-02: Tamper detected (signature)".to_string());
    }
    Ok(())
}

/// The first check that record `i` of a log fails, if any: its signature, its link to
/// the record before it, its replayed output, its trace hash, its state hash.
pub open spec fn record_failure(records: Seq<AttestationRecord>, i: int) -> Option<Seq<char>> {
    let rec = records[i];
    let input = replay_input(rec);
    let deps = replay_deps(rec);
    let output_hash = sha256_spec(replay_output(input, deps));
    if !signature_holds(rec.decision_hash@, rec.pcr_digest@, rec.signature@) {
        Some("VVD-FAIL-02: Tamper detected (signature)"@)
    } else if i > 0 && sha256_spec(records[i - 1].signature@ + rec.decision_hash@) != rec.prev_hash@ {
        Some("VVD-FAIL-02: Tamper detected (chain linkage)"@)
    } else if (match rec.output_hash {
        Some(h) => output_hash != h@,
        None => output_hash != rec.decision_hash@,
    }) {
        Some("VVD-FAIL-01: Replay mismatch"@)
    } else if (rec.trace_hash matches Some(h) && sha256_spec(replay_trace(input, deps)) != h@) {
        Some("VVD-FAIL-06: Incomplete trace - trace hash mismatch"@)
    } else if (rec.state_hash matches Some(h) && replay_state(input, deps) != h@) {
        Some("VVD-FAIL-01: Replay mismatch (state hash)"@)
    } else {
        None
    }
}

/// The first failure among the first `k` records of a log, if any.
pub open spec fn first_failure(records: Seq<AttestationRecord>, k: int) -> Option<Seq<char>>
    decreases k,
{
    if k <= 0 {
        None
    } else {
        match first_failure(records, k - 1) {
            Some(e) => Some(e),
            None => record_failure(records, k - 1),
        }
    }
}

/// Once a failure is found among the first `k` records, it stays the first failure.
pub proof fn lemma_first_failure_stays(records: Seq<AttestationRecord>, k: int, k2: int)
    requires
        0 <= k <= k2,
        first_failure(records, k) is Some,
    ensures
        first_failure(records, k2) == first_failure(records, k),
    decreases k2 - k,
{
    if k2 > k {
        lemma_first_failure_stays(records, k, k2 - 1);
    }
}

/// The report of a log that passed every check.
pub open spec fn passed_message(n: nat) -> Seq<char> {
    "✔ VVD checks passed: "@ + decimal(n) + " records"@
}

fn check_record(records: &Vec<AttestationRecord>, i: usize) -> (r: Result<(), String>)
    requires
        i < records.len(),
    ensures
        match r {
            Ok(()) => record_failure(records@, i as int) is None,
            Err(e) => record_failure(records@, i as int) == Some(e@),
        },
{
    let rec = &records[i];
    match verify_signature(rec.decision_hash.as_slice(), rec.pcr_digest.as_slice(), rec.signature.as_slice()) {
        Ok(()) => {},
        Err(e) => {
            return Err(e);
        },
    }
    if i > 0 {
        let prev = &records[i - 1];
        let mut input: Vec<u8> = Vec::new();
        extend_bytes(&mut input, prev.signature.as_slice());
        extend_bytes(&mut input, rec.decision_hash.as_slice());
        let expected = sha256(input.as_slice());
        if !bytes_eq(expected.as_slice(), rec.prev_hash.as_slice()) {
            return Err("VVD-FAIL-02: Tamper detected (chain linkage)".to_string());
        }
    }
    let replay_out = match deterministic_replay(rec) {
        Ok(r) => r,
        Err(e) => {
            return Err(e);
        },
    };
    let computed_output_hash = sha256(replay_out.output.as_slice());
    match &rec.output_hash {
        Some(expected_output_hash) => {
            if !bytes_eq(computed_output_hash.as_slice(), expected_output_hash.as_slice()) {
                return Err("VVD-FAIL-01: Replay mismatch".to_string());
            }
        },
        None => {
            if !bytes_eq(computed_output_hash.as_slice(), rec.decision_hash.as_slice()) {
                return Err("VVD-FAIL-01: Replay mismatch".to_string());
            }
        },
    }
    let computed_trace_hash = sha256(replay_out.trace.as_slice());
    match &rec.trace_hash {
        Some(expected_trace_hash) => {
            if !bytes_eq(computed_trace_hash.as_slice(), expected_trace_hash.as_slice()) {
                return Err("VVD-FAIL-06: Incomplete trace - trace hash mismatch".to_string());
            }
        },
        None => {},
    }
    match &rec.state_hash {
        Some(expected_state_hash) => {
            if !bytes_eq(replay_out.state_hash.as_slice(), expected_state_hash.as_slice()) {
                return Err("VVD-FAIL-01: Replay mismatch (state hash)".to_string());
            }
        },
        None => {},
    }
    Ok(())
}

/// Checks every record of a log in order and stops at the first failure, whose text
/// is the error; when all pass, reports how many records were checked.
pub fn verify_log(log: &AttestationLog) -> (r: Result<String, String>)
    ensures
        match r {
            Ok(m) => first_failure(log.records@, log.records@.len() as int) is None && m@ == passed_message(
                log.records@.len(),
            ),
            Err(e) => first_failure(log.records@, log.records@.len() as int) == Some(e@),
        },
{
    let mut i: usize = 0;
    while i < log.records.len()
        invariant
            i <= log.records.len(),
            first_failure(log.records@, i as int) is None,
        decreases log.records.len() - i,
    {
        match check_record(&log.records, i) {
            Ok(()) => {},
            Err(e) => {
                proof {
                    assert(first_failure(log.records@, i + 1) == Some(e@));
                    lemma_first_failure_stays(log.records@, i + 1, log.records@.len() as int);
                }
                return Err(e);
            },
        }
        i = i + 1;
    }
    let mut m = "✔ VVD checks passed: ".to_string();
    push_decimal(&mut m, log.records.len() as u64);
    push_str(&mut m, " records");
    Ok(m)
}

} // verus!
