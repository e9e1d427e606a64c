//! Reading the hex inputs of the diagnostic verifier: 32-byte hashes, and a
//! comma-separated list of approved firmware hashes.
use vstd::prelude::*;
use crate::hashing::{hex_decode, hex_decodable, hex_decoded, hex_error_text};
use crate::text::{chars_of, push_str, push_chars, split_chars, split_spec, trim, trim_chars, views_of, string_from_chars};

verus! {

/// What reading a 32-byte hash in hex gives: the bytes, or why not.
pub open spec fn hash32_spec(input: Seq<char>, label: Seq<char>) -> Result<Seq<u8>, Seq<char>> {
    if !hex_decodable(input) {
        Err("invalid "@ + label + " hex: "@ + hex_error_text(input))
    } else if hex_decoded(input).len() != 32 {
        Err(label + " must be 32 bytes (64 hex chars)"@)
    } else {
        Ok(hex_decoded(input))
    }
}

/// Reads a 32-byte hash written in hex; `label` names it in the error.
pub fn parse_hash32_hex(input: &str, label: &str) -> (r: Result<Vec<u8>, String>)
    ensures
        match r {
            Ok(v) => hash32_spec(input@, label@) == Ok::<Seq<u8>, Seq<char>>(v@),
            Err(e) => hash32_spec(input@, label@) == Err::<Seq<u8>, Seq<char>>(e@),
        },
{
    match hex_decode(input) {
        Err(e) => {
            let mut m = "invalid ".to_string();
            push_str(&mut m, label);
            push_str(&mut m, " hex: ");
            push_str(&mut m, e.as_str());
            Err(m)
        },
        Ok(bytes) => {
            if bytes.len() != 32 {
                let mut m = String::new();
                push_str(&mut m, label);
                push_str(&mut m, " must be 32 bytes (64 hex chars)");
                Err(m)
            } else {
                Ok(bytes)
            }
        },
    }
}

/// The label of one firmware token in errors.
pub open spec fn firmware_label(token: Seq<char>) -> Seq<char> {
    "firmware hash '"@ + token + "'"@
}

/// The approved hashes read from the tokens `toks[0..n]`, blank tokens skipped, or the
/// first error.
pub open spec fn firmware_hashes_spec(toks: Seq<Seq<char>>, n: int) -> Result<Seq<Seq<u8>>, Seq<char>>
    decreases n,
{
    if n <= 0 {
        Ok(Seq::empty())
    } else {
        match firmware_hashes_spec(toks, n - 1) {
            Err(e) => Err(e),
            Ok(done) => {
                let t = toks[n - 1];
                if trim(t).len() == 0 {
                    Ok(done)
                } else {
                    match hash32_spec(trim(t), firmware_label(t)) {
                        Ok(h) => Ok(done.push(h)),
                        Err(e) => Err(e),
                    }
                }
            },
        }
    }
}

/// Views of byte vectors.
pub open spec fn byte_views(v: Seq<Vec<u8>>) -> Seq<Seq<u8>> {
    v.map_values(|b: Vec<u8>| b@)
}

/// Reads a comma-separated list of approved firmware hashes; blank entries are
/// skipped, and the first entry that is not a 32-byte hex hash is the error.
pub fn parse_approved_firmware_hashes(input: &str) -> (r: Result<Vec<Vec<u8>>, String>)
    ensures
        match r {
            Ok(v) => firmware_hashes_spec(split_spec(input@, ','), split_spec(input@, ',').len() as int)
                == Ok::<Seq<Seq<u8>>, Seq<char>>(byte_views(v@)),
            Err(e) => firmware_hashes_spec(split_spec(input@, ','), split_spec(input@, ',').len() as int)
                == Err::<Seq<Seq<u8>>, Seq<char>>(e@),
        },
{
    let cs = chars_of(input);
    let toks = split_chars(cs.as_slice(), ',');
    let ghost tv = split_spec(input@, ',');
    assert(views_of(toks@) == tv);
    let mut approved: Vec<Vec<u8>> = Vec::new();
    assert(byte_views(approved@) =~= Seq::<Seq<u8>>::empty());
    let mut i: usize = 0;
    while i < toks.len()
        invariant
            i <= toks.len(),
            views_of(toks@) == tv,
            tv == split_spec(input@, ','),
            firmware_hashes_spec(tv, i as int) == Ok::<Seq<Seq<u8>>, Seq<char>>(byte_views(approved@)),
        decreases toks.len() - i,
    {
        assert(tv[i as int] == toks@[i as int]@);
        let trimmed = trim_chars(toks[i].as_slice());
        if trimmed.len() > 0 {
            let t = string_from_chars(trimmed.as_slice());
            let mut label = "firmware hash '".to_string();
            push_chars(&mut label, toks[i].as_slice());
            push_str(&mut label, "'");
            assert(t@ == trim(tv[i as int]));
            assert(label@ == firmware_label(tv[i as int]));
            match parse_hash32_hex(t.as_str(), label.as_str()) {
                Ok(h) => {
                    let ghost before = approved@;
                    approved.push(h);
                    assert(byte_views(approved@) == byte_views(before).push(h@));
                },
                Err(e) => {
                    proof {
                        assert(firmware_hashes_spec(tv, i as int + 1) == Err::<Seq<Seq<u8>>, Seq<char>>(e@));
                        lemma_firmware_error_stays(tv, i as int + 1, tv.len() as int);
                        assert(tv.len() == toks@.len());
                        assert(firmware_hashes_spec(tv, tv.len() as int) == Err::<Seq<Seq<u8>>, Seq<char>>(e@));
                    }
                    return Err(e);
                },
            }
        }
        i = i + 1;
    }
    Ok(approved)
}

proof fn lemma_firmware_error_stays(toks: Seq<Seq<char>>, k: int, k2: int)
    requires
        0 <= k <= k2,
        firmware_hashes_spec(toks, k) is Err,
    ensures
        firmware_hashes_spec(toks, k2) == firmware_hashes_spec(toks, k),
    decreases k2 - k,
{
    if k2 > k {
        lemma_firmware_error_stays(toks, k, k2 - 1);
    }
}

/// How a diagnostic was verified.
#[derive(Debug, Clone, Copy, PartialEq, Eq)]
pub enum VerificationMode {
    FullPayload,
    SingleFileHash,
    SingleFileEmbedded,
}

/// The outcome of verifying a diagnostic.
#[derive(Debug, Clone, Copy, PartialEq, Eq)]
pub enum DiagnosticVerificationOutcome {
    Valid,
    InvalidSignature,
    HashMismatch,
    UnrecognizedFirmware,
}

/// The report printed for a verification.
#[derive(Debug, Clone, Copy)]
pub struct VerificationReport<'a> {
    pub status: &'a str,
    pub trust: &'a str,
    pub mode: &'a str,
    pub dtc: &'a str,
    pub reason: &'a str,
}

/// The name a mode is reported under.
pub open spec fn mode_name(mode: VerificationMode) -> Seq<char> {
    match mode {
        VerificationMode::FullPayload => "FULL_PAYLOAD"@,
        VerificationMode::SingleFileHash => "SINGLE_FILE_HASH"@,
        VerificationMode::SingleFileEmbedded => "SINGLE_FILE_EMBEDDED"@,
    }
}

/// The reason an outcome is reported under.
pub open spec fn outcome_reason(outcome: DiagnosticVerificationOutcome) -> Seq<char> {
    match outcome {
        DiagnosticVerificationOutcome::Valid => "NONE"@,
        DiagnosticVerificationOutcome::InvalidSignature => "INVALID_SIGNATURE"@,
        DiagnosticVerificationOutcome::HashMismatch => "HASH_MISMATCH"@,
        DiagnosticVerificationOutcome::UnrecognizedFirmware => "UNRECOGNIZED_FIRMWARE"@,
    }
}

/// The report of a verification: `VALID`/`VERIFIED` for a valid diagnostic, else
/// `INVALID`/`REJECTED`, with the mode's name, the trouble code and the reason.
pub fn build_report<'a>(
    mode: VerificationMode,
    dtc: &'a str,
    outcome: DiagnosticVerificationOutcome,
) -> (r: VerificationReport<'a>)
    ensures
        r.status@ == (if outcome == DiagnosticVerificationOutcome::Valid {
            "VALID"@
        } else {
            "INVALID"@
        }),
        r.trust@ == (if outcome == DiagnosticVerificationOutcome::Valid {
            "VERIFIED"@
        } else {
            "REJECTED"@
        }),
        r.mode@ == mode_name(mode),
        r.dtc == dtc,
        r.reason@ == outcome_reason(outcome),
{
    let mode_str = match mode {
        VerificationMode::FullPayload => "FULL_PAYLOAD",
        VerificationMode::SingleFileHash => "SINGLE_FILE_HASH",
        VerificationMode::SingleFileEmbedded => "SINGLE_FILE_EMBEDDED",
    };
    match outcome {
        DiagnosticVerificationOutcome::Valid => VerificationReport {
            status: "VALID",
            trust: "VERIFIED",
            mode: mode_str,
            dtc,
            reason: "NONE",
        },
        DiagnosticVerificationOutcome::InvalidSignature => VerificationReport {
            status: "INVALID",
            trust: "REJECTED",
            mode: mode_str,
            dtc,
            reason: "INVALID_SIGNATURE",
        },
        DiagnosticVerificationOutcome::HashMismatch => VerificationReport {
            status: "INVALID",
            trust: "REJECTED",
            mode: mode_str,
            dtc,
            reason: "HASH_MISMATCH",
        },
        DiagnosticVerificationOutcome::UnrecognizedFirmware => VerificationReport {
            status: "INVALID",
            trust: "REJECTED",
            mode: mode_str,
            dtc,
            reason: "UNRECOGNIZED_FIRMWARE",
        },
    }
}

} // verus!
