//! Inputs of the full-stack grid audit.
use vstd::prelude::*;
use crate::hashing::{hex_decode, hex_decodable, hex_decoded, hex_error_text};

verus! {

/// Reads the audit's 32-byte hash written in hex: the hex error text when it is not
/// hex, a fixed message when it is not 32 bytes long.
pub fn decode_hash_hex(input: &str) -> (r: Result<Vec<u8>, String>)
    ensures
        !hex_decodable(input@) ==> (r matches Err(e) && e@ == hex_error_text(input@)),
        hex_decodable(input@) && hex_decoded(input@).len() != 32 ==> (r matches Err(e) && e@
            == "RI04 hash must be 32 bytes (64 hex chars)"@),
        hex_decodable(input@) && hex_decoded(input@).len() == 32 ==> (r matches Ok(v) && v@ == hex_decoded(input@)),
{
    let bytes = match hex_decode(input) {
        Ok(b) => b,
        Err(e) => {
            return Err(e);
        },
    };
    if bytes.len() != 32 {
        return Err("RI04 hash must be 32 bytes (64 hex chars)".to_string());
    }
    Ok(bytes)
}

} // verus!
