//! TPM attestation: a PCR that is extended with record hashes, quotes over it that
//! bind a nonce, and the check of a quote against the nonce it should carry.
//!
//! A simulated quote is laid out as: the magic `SIMTPM1`, the PCR index (4 bytes),
//! the nonce length (4 bytes), the nonce, the PCR state length (4 bytes) and the PCR
//! state, every number little-endian. Its signature is the SHA-256 of the quote
//! followed by the label `simulated-ak`.
use vstd::prelude::*;
use crate::bytes::{le_bytes, le_value, lemma_le_bytes_len, lemma_le_round_trip, pow256, read_u32_le, u32_le_bytes, u64_le_bytes};
use crate::failure_axis::{FailureAxis, SystemHalt};
use crate::hashing::{extend_bytes, sha256, sha256_spec};
use crate::trusted_time::TrustedTime;

verus! {

/// The magic that opens a simulated quote: the ASCII bytes of `SIMTPM1`.
pub open spec fn quote_magic() -> Seq<u8> {
    seq![83u8, 73u8, 77u8, 84u8, 80u8, 77u8, 49u8]
}

fn quote_magic_bytes() -> (v: Vec<u8>)
    ensures
        v@ == quote_magic(),
{
    let v: Vec<u8> = vec![83u8, 73u8, 77u8, 84u8, 80u8, 77u8, 49u8];
    assert(v@ == quote_magic());
    v
}

/// The label that the simulated attestation key signs with.
pub open spec fn ak_label() -> Seq<u8> {
    vstd::utf8::encode_utf8("simulated-ak"@)
}

/// The simulated quote over a PCR.
pub open spec fn sim_quote(pcr_index: u32, nonce: Seq<u8>, pcr_state: Seq<u8>) -> Seq<u8> {
    quote_magic() + le_bytes(pcr_index as nat, 4) + le_bytes((nonce.len() as u32) as nat, 4) + nonce + le_bytes(
        (pcr_state.len() as u32) as nat,
        4,
    ) + pcr_state
}

/// The signature of a simulated quote.
pub open spec fn quote_signature(attest: Seq<u8>) -> Seq<u8> {
    sha256_spec(attest + ak_label())
}

/// Builds a simulated quote.
pub fn build_sim_quote(pcr_index: u32, nonce: &[u8], pcr_state_hash: &[u8]) -> (out: Vec<u8>)
    ensures
        out@ == sim_quote(pcr_index, nonce@, pcr_state_hash@),
{
    let mut out = quote_magic_bytes();
    extend_bytes(&mut out, u32_le_bytes(pcr_index).as_slice());
    #[verifier::truncate]
    let nonce_len: u32 = nonce.len() as u32;
    extend_bytes(&mut out, u32_le_bytes(nonce_len).as_slice());
    extend_bytes(&mut out, nonce);
    #[verifier::truncate]
    let state_len: u32 = pcr_state_hash.len() as u32;
    extend_bytes(&mut out, u32_le_bytes(state_len).as_slice());
    extend_bytes(&mut out, pcr_state_hash);
    out
}

/// What the parser finds in a simulated quote: the nonce, or why it refuses it.
pub open spec fn parse_quote_spec(a: Seq<u8>) -> Result<Seq<u8>, Seq<char>> {
    if a.len() < 19 {
        Err("ERR_TPM_ATTEST_MALFORMED"@)
    } else if a.subrange(0, 7) != quote_magic() {
        Err("ERR_TPM_ATTEST_MAGIC"@)
    } else {
        let n = le_value(a.subrange(11, 15));
        if a.len() < 15 + n + 4 {
            Err("ERR_TPM_ATTEST_NONCE_LEN"@)
        } else {
            Ok(a.subrange(15, 15 + n as int))
        }
    }
}

/// The part of a quote that its check needs.
#[derive(Debug)]
pub struct ParsedQuote {
    pub nonce: Vec<u8>,
}

/// Reads the nonce out of a simulated quote: refused when it is shorter than its fixed
/// header, when it does not open with the magic, or when it is too short for the
/// nonce length it states (and the state length after it).
pub fn parse_sim_quote(attest: &[u8]) -> (r: Result<ParsedQuote, String>)
    ensures
        match r {
            Ok(p) => parse_quote_spec(attest@) == Ok::<Seq<u8>, Seq<char>>(p.nonce@),
            Err(e) => parse_quote_spec(attest@) == Err::<Seq<u8>, Seq<char>>(e@),
        },
{
    if attest.len() < 19 {
        return Err("ERR_TPM_ATTEST_MALFORMED".to_string());
    }
    let magic = quote_magic_bytes();
    let mut k: usize = 0;
    while k < 7
        invariant
            k <= 7,
            attest.len() >= 19,
            magic@ == quote_magic(),
            forall|j: int| 0 <= j < k ==> attest@[j] == magic@[j],
        decreases 7 - k,
    {
        if attest[k] != magic[k] {
            assert(attest@.subrange(0, 7)[k as int] != quote_magic()[k as int]);
            return Err("ERR_TPM_ATTEST_MAGIC".to_string());
        }
        k = k + 1;
    }
    assert(attest@.subrange(0, 7) == quote_magic());
    let nonce_len = read_u32_le(attest, 11);
    let needed: u64 = 15u64 + (nonce_len as u64) + 4;
    if (attest.len() as u64) < needed {
        return Err("ERR_TPM_ATTEST_NONCE_LEN".to_string());
    }
    let end: usize = 15 + nonce_len as usize;
    let mut nonce: Vec<u8> = Vec::new();
    let mut i: usize = 15;
    while i < end
        invariant
            15 <= i <= end,
            end <= attest.len(),
            nonce@ == attest@.subrange(15, i as int),
        decreases end - i,
    {
        nonce.push(attest[i]);
        assert(attest@.subrange(15, i + 1) == attest@.subrange(15, i as int).push(attest@[i as int]));
        i = i + 1;
    }
    Ok(ParsedQuote { nonce })
}

/// A quote built over a nonce gives that nonce back when parsed.
pub proof fn lemma_parse_build(pcr_index: u32, nonce: Seq<u8>, pcr_state: Seq<u8>)
    requires
        nonce.len() <= u32::MAX,
    ensures
        parse_quote_spec(sim_quote(pcr_index, nonce, pcr_state)) == Ok::<Seq<u8>, Seq<char>>(nonce),
{
    let a = sim_quote(pcr_index, nonce, pcr_state);
    let n = nonce.len();
    lemma_le_bytes_len(pcr_index as nat, 4);
    lemma_le_bytes_len((nonce.len() as u32) as nat, 4);
    lemma_le_bytes_len((pcr_state.len() as u32) as nat, 4);
    assert((nonce.len() as u32) as nat == n);
    assert(pow256(4) == 0x1_0000_0000) by {
        reveal_with_fuel(pow256, 5);
    }
    lemma_le_round_trip(n, 4);
    assert(a.subrange(0, 7) == quote_magic());
    assert(a.subrange(11, 15) == le_bytes(n, 4));
    assert(a.subrange(15, 15 + n as int) == nonce);
}

/// Checks a quote and its signature against the nonce it should carry: the quote must
/// parse, carry exactly that nonce, and be signed by the simulated key.
pub open spec fn quote_check(attest: Seq<u8>, signature: Seq<u8>, expected_nonce: Seq<u8>) -> Result<(), Seq<char>> {
    match parse_quote_spec(attest) {
        Err(e) => Err(e),
        Ok(n) => if n != expected_nonce {
            Err("ERR_NONCE_MISMATCH"@)
        } else if quote_signature(attest) != signature {
            Err("ERR_TPM_SIGNATURE_INVALID"@)
        } else {
            Ok(())
        },
    }
}

fn bytes_eq(a: &[u8], b: &[u8]) -> (r: bool)
    ensures
        r == (a@ == b@),
{
    if a.len() != b.len() {
        return false;
    }
    let mut i: usize = 0;
    while i < a.len()
        invariant
            a.len() == b.len(),
            i <= a.len(),
            forall|j: int| 0 <= j < i ==> a@[j] == b@[j],
        decreases a.len() - i,
    {
        if a[i] != b[i] {
            return false;
        }
        i = i + 1;
    }
    assert(a@ == b@);
    true
}

/// Checks a quote and its signature against the nonce it should carry.
pub fn verify_quote_nonce_and_signature(attest: &[u8], signature: &[u8], expected_nonce: &[u8]) -> (r: Result<(), String>)
    ensures
        match r {
            Ok(()) => quote_check(attest@, signature@, expected_nonce@) == Ok::<(), Seq<char>>(()),
            Err(e) => quote_check(attest@, signature@, expected_nonce@) == Err::<(), Seq<char>>(e@),
        },
{
    let parsed = match parse_sim_quote(attest) {
        Ok(p) => p,
        Err(e) => {
            return Err(e);
        },
    };
    if !bytes_eq(parsed.nonce.as_slice(), expected_nonce) {
        return Err("ERR_NONCE_MISMATCH".to_string());
    }
    let mut signed: Vec<u8> = Vec::new();
    extend_bytes(&mut signed, attest);
    extend_bytes(&mut signed, "simulated-ak".as_bytes());
    let expected_sig = sha256(signed.as_slice());
    if !bytes_eq(expected_sig.as_slice(), signature) {
        return Err("ERR_TPM_SIGNATURE_INVALID".to_string());
    }
    Ok(())
}

/// A TPM that keeps a PCR and quotes over it.
pub trait TpmAttestor {
    fn pcr_index(&self) -> u32;

    fn extend_pcr(&mut self, record_hash: &[u8]) -> Result<(), SystemHalt>;

    fn quote(&mut self, nonce: &[u8]) -> Result<(Vec<u8>, Vec<u8>), SystemHalt>;
}

/// A TPM simulated in memory: one PCR, starting at 32 zero bytes.
#[derive(Debug)]
pub struct SimulatedTpmAttestor {
    pcr_index: u32,
    pcr_state: Vec<u8>,
}

impl SimulatedTpmAttestor {
    /// The PCR that the attestor quotes.
    pub closed spec fn pcr(&self) -> u32 {
        self.pcr_index
    }

    /// The PCR's current value.
    pub closed spec fn state(&self) -> Seq<u8> {
        self.pcr_state@
    }

    /// An attestor for PCR `pcr_index`, its value 32 zero bytes.
    pub fn new(pcr_index: u32) -> (a: Self)
        ensures
            a.pcr() == pcr_index,
            a.state() == Seq::new(32, |i: int| 0u8),
    {
        let mut pcr_state: Vec<u8> = Vec::new();
        let mut i: usize = 0;
        while i < 32
            invariant
                i <= 32,
                pcr_state@ == Seq::new(i as nat, |j: int| 0u8),
            decreases 32 - i,
        {
            pcr_state.push(0u8);
            assert(pcr_state@ == Seq::new((i + 1) as nat, |j: int| 0u8));
            i = i + 1;
        }
        SimulatedTpmAttestor { pcr_index, pcr_state }
    }
}

impl TpmAttestor for SimulatedTpmAttestor {
    fn pcr_index(&self) -> (i: u32)
        ensures
            i == self.pcr(),
    {
        self.pcr_index
    }

    /// Extends the PCR: its new value is the SHA-256 of its old value followed by the hash.
    fn extend_pcr(&mut self, record_hash: &[u8]) -> (r: Result<(), SystemHalt>)
        ensures
            r is Ok,
            final(self).pcr() == old(self).pcr(),
            final(self).state() == sha256_spec(old(self).state() + record_hash@),
    {
        let mut input: Vec<u8> = Vec::new();
        extend_bytes(&mut input, self.pcr_state.as_slice());
        extend_bytes(&mut input, record_hash);
        self.pcr_state = sha256(input.as_slice());
        Ok(())
    }

    /// Quotes the PCR over a nonce: the quote and its signature.
    fn quote(&mut self, nonce: &[u8]) -> (r: Result<(Vec<u8>, Vec<u8>), SystemHalt>)
        ensures
            final(self).pcr() == old(self).pcr(),
            final(self).state() == old(self).state(),
            r matches Ok(q) && q.0@ == sim_quote(old(self).pcr(), nonce@, old(self).state()) && q.1@
                == quote_signature(q.0@),
    {
        let attest = build_sim_quote(self.pcr_index, nonce, self.pcr_state.as_slice());
        let mut signed: Vec<u8> = Vec::new();
        extend_bytes(&mut signed, attest.as_slice());
        extend_bytes(&mut signed, "simulated-ak".as_bytes());
        let signature = sha256(signed.as_slice());
        Ok((attest, signature))
    }
}

/// A quote that the simulated TPM made over a nonce passes the check against that nonce.
pub proof fn lemma_quote_verifies(pcr_index: u32, nonce: Seq<u8>, pcr_state: Seq<u8>)
    requires
        nonce.len() <= u32::MAX,
    ensures
        quote_check(sim_quote(pcr_index, nonce, pcr_state), quote_signature(sim_quote(pcr_index, nonce, pcr_state)), nonce)
            == Ok::<(), Seq<char>>(()),
{
    lemma_parse_build(pcr_index, nonce, pcr_state);
}

/// The nonce that binds an attestation to a decision, the chain head, a time reading
/// and a context hash: the SHA-256 of the decision hash, the chain hash, the wall and
/// monotonic times (8 bytes each), the context length (4 bytes) and the context hash.
pub open spec fn attestation_nonce(decision: Seq<u8>, chain: Seq<u8>, time: TrustedTime, context: Seq<u8>) -> Seq<u8> {
    sha256_spec(
        decision + chain + le_bytes(time.wall_time_ns as nat, 8) + le_bytes(time.monotonic_ns as nat, 8) + le_bytes(
            (context.len() as u32) as nat,
            4,
        ) + context,
    )
}

/// The attestation nonce with an empty context.
pub fn build_attestation_nonce(decision_hash: &[u8], chain_hash: &[u8], time: &TrustedTime) -> (n: Vec<u8>)
    ensures
        n@ == attestation_nonce(decision_hash@, chain_hash@, *time, Seq::empty()),
{
    let empty: Vec<u8> = Vec::new();
    build_attestation_nonce_with_context(decision_hash, chain_hash, time, empty.as_slice())
}

/// The attestation nonce over a decision, the chain head, a time reading and a context.
pub fn build_attestation_nonce_with_context(
    decision_hash: &[u8],
    chain_hash: &[u8],
    time: &TrustedTime,
    context_hash: &[u8],
) -> (n: Vec<u8>)
    ensures
        n@ == attestation_nonce(decision_hash@, chain_hash@, *time, context_hash@),
{
    let mut input: Vec<u8> = Vec::new();
    extend_bytes(&mut input, decision_hash);
    extend_bytes(&mut input, chain_hash);
    extend_bytes(&mut input, u64_le_bytes(time.wall_time_ns).as_slice());
    extend_bytes(&mut input, u64_le_bytes(time.monotonic_ns).as_slice());
    #[verifier::truncate]
    let context_len: u32 = context_hash.len() as u32;
    extend_bytes(&mut input, u32_le_bytes(context_len).as_slice());
    extend_bytes(&mut input, context_hash);
    sha256(input.as_slice())
}

/// The halt raised when no TPM can be reached.
pub fn tpm_unavailable(msg: &str) -> (h: SystemHalt)
    ensures
        h.axis == FailureAxis::TpmUnavailable,
        h.message@ == msg@,
{
    SystemHalt::new(FailureAxis::TpmUnavailable, msg)
}

} // verus!
