//! The sovereign kernel's records and the signers that seal them.
use vstd::prelude::*;
use crate::failure_axis::SystemHalt;
use crate::hashing::{extend_bytes, sha256_hex_of_bytes, sha256_hex_bytes_spec};

verus! {

/// One tick of the kernel: what the AI asked for and what the kernel put out.
#[derive(Debug, Clone, Copy, PartialEq, Eq, Structural)]
pub struct SovereignTrace {
    pub tick: u64,
    pub ai_request: u64,
    pub kernel_output: u64,
    pub authority_level: u8,
}

/// A signed summary of a run of ticks.
#[derive(Debug)]
pub struct SummaryAttestation {
    pub trace_hash: String,
    pub tick_count: u64,
    pub signature: String,
}

/// Whether the L7 layer let a request through unchanged.
#[derive(Debug, Clone, Copy, PartialEq, Eq, Structural)]
pub enum L7Disposition {
    Allowed,
    Constrained,
}

/// Why the L7 layer constrained a request.
#[derive(Debug, Clone, Copy, PartialEq, Eq, Structural)]
pub enum L7Reason {
    Nominal,
    Thermal,
    Frequency,
}

/// One L7 decision.
#[derive(Debug, Clone, Copy, PartialEq, Eq, Structural)]
pub struct L7Event {
    pub tick: u64,
    pub disposition: L7Disposition,
}

/// Something that signs bytes, as a TPM does.
pub trait TpmSigner {
    fn sign(&self, data: &[u8]) -> Result<String, SystemHalt>;
}

/// A signer simulated with a fixed key: SHA-256 of the data followed by the key.
#[derive(Debug)]
pub struct FixedKeySimulatedTpmSigner {
    key: String,
}

/// The key of the simulated signer.
pub open spec fn simulated_key() -> Seq<char> {
    "simulated-key"@
}

/// The simulated signature of some data: lower-case hex SHA-256 of the data followed
/// by the UTF-8 bytes of the key.
pub open spec fn simulated_signature(data: Seq<u8>) -> Seq<char> {
    sha256_hex_bytes_spec(data + vstd::utf8::encode_utf8(simulated_key()))
}

impl FixedKeySimulatedTpmSigner {
    /// The key this signer holds.
    pub closed spec fn key(&self) -> Seq<char> {
        self.key@
    }

    /// A signer holding the simulated key.
    pub fn new() -> (s: Self)
        ensures
            s.key() == simulated_key(),
    {
        FixedKeySimulatedTpmSigner { key: "simulated-key".to_string() }
    }
}

impl TpmSigner for FixedKeySimulatedTpmSigner {
    /// Signs data with the held key; it never fails.
    fn sign(&self, data: &[u8]) -> (r: Result<String, SystemHalt>)
        ensures
            r matches Ok(s) && s@ == sha256_hex_bytes_spec(data@ + vstd::utf8::encode_utf8(self.key())),
    {
        let mut input: Vec<u8> = Vec::new();
        extend_bytes(&mut input, data);
        extend_bytes(&mut input, self.key.as_str().as_bytes());
        Ok(sha256_hex_of_bytes(input.as_slice()))
    }
}

/// Any of the signers the kernel can be given.
#[derive(Debug)]
pub enum AnyTpmSigner {
    Simulated(FixedKeySimulatedTpmSigner),
}

impl TpmSigner for AnyTpmSigner {
    /// Signs with the signer it holds.
    fn sign(&self, data: &[u8]) -> (r: Result<String, SystemHalt>)
        ensures
            match self {
                AnyTpmSigner::Simulated(s) => r matches Ok(sig) && sig@ == sha256_hex_bytes_spec(
                    data@ + vstd::utf8::encode_utf8(s.key()),
                ),
            },
    {
        match self {
            AnyTpmSigner::Simulated(s) => s.sign(data),
        }
    }
}

/// A signer backed by the tpm2-tools, by the context of its key.
#[derive(Debug)]
pub struct Tpm2ToolsSigner {
    key_context: String,
}

impl Tpm2ToolsSigner {
    /// The key context this signer uses.
    pub closed spec fn key_context(&self) -> Seq<char> {
        self.key_context@
    }

    /// A signer for the given key context.
    pub fn new(key_context: String) -> (s: Self)
        ensures
            s.key_context() == key_context@,
    {
        Tpm2ToolsSigner { key_context }
    }
}

} // verus!
