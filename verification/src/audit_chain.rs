//! The audit ticket of a verified attestation chain: its identifier and the payload
//! that its barcode carries, anchored on the hash of the chain's last record.
use vstd::prelude::*;
use crate::bytes::{le_bytes, u32_le_bytes};
use crate::hashing::{extend_bytes, hex_encode, hex_lower, sha256, sha256_spec};
use crate::text::{chars_of, push_chars, push_decimal, push_str, decimal};

verus! {

/// Upper-casing of a lower-case hexadecimal digit (other characters stay).
pub open spec fn hex_upper(c: char) -> char {
    if 'a' <= c <= 'f' {
        ((c as u32) - 32) as char
    } else {
        c
    }
}

/// The anchor of a chain's last record: its record hash, or its decision hash where
/// the record carries no record hash.
pub open spec fn anchor_spec(record_hash: Seq<u8>, decision_hash: Seq<u8>) -> Seq<u8> {
    if record_hash.len() == 0 {
        decision_hash
    } else {
        record_hash
    }
}

/// The ticket identifier: `AUDIT-`, the number of records, `-`, and the first twelve
/// digits of the anchor's hexadecimal text (all of it when shorter), upper-cased.
pub open spec fn ticket_id_spec(record_count: nat, anchor: Seq<u8>) -> Seq<char> {
    let hex = hex_lower(anchor);
    let short = if hex.len() < 12 {
        hex
    } else {
        hex.take(12)
    };
    "AUDIT-"@ + decimal(record_count) + "-"@ + short.map_values(|c: char| hex_upper(c))
}

/// The barcode payload: `MVR-AUDIT|`, the ticket identifier, `|`, the anchor's
/// hexadecimal text, and `|MC:` with the market snapshot hash where there is one.
pub open spec fn barcode_payload_spec(
    record_count: nat,
    anchor: Seq<u8>,
    snapshot_hash_hex: Option<Seq<char>>,
) -> Seq<char> {
    let base = "MVR-AUDIT|"@ + ticket_id_spec(record_count, anchor) + "|"@ + hex_lower(anchor);
    match snapshot_hash_hex {
        Some(h) => base + "|MC:"@ + h,
        None => base,
    }
}

/// The ticket of an audit chain.
#[derive(Debug, Clone)]
pub struct AuditChainTicket {
    pub ticket_id: String,
    pub anchor_hash_hex: String,
    pub barcode_payload: String,
}

/// The anchor bytes of a chain's last record (`anchor_spec`).
pub fn chain_anchor<'a>(record_hash: &'a [u8], decision_hash: &'a [u8]) -> (a: &'a [u8])
    ensures
        a@ == anchor_spec(record_hash@, decision_hash@),
{
    if record_hash.len() == 0 {
        decision_hash
    } else {
        record_hash
    }
}

/// The ticket of a chain of `record_count` records whose last record has the given
/// anchor, with the market snapshot hash where one was taken.
pub fn build_audit_chain_ticket(
    record_count: u64,
    anchor: &[u8],
    snapshot_hash_hex: Option<&str>,
) -> (t: AuditChainTicket)
    ensures
        t.anchor_hash_hex@ == hex_lower(anchor@),
        t.ticket_id@ == ticket_id_spec(record_count as nat, anchor@),
        t.barcode_payload@ == barcode_payload_spec(
            record_count as nat,
            anchor@,
            match snapshot_hash_hex {
                Some(h) => Some(h@),
                None => None,
            },
        ),
{
    let anchor_hash_hex = hex_encode(anchor);
    let hex = chars_of(anchor_hash_hex.as_str());
    let n: usize = if hex.len() < 12 {
        hex.len()
    } else {
        12
    };
    let mut upper: Vec<char> = Vec::new();
    let mut i: usize = 0;
    while i < n
        invariant
            n <= hex.len(),
            i <= n,
            upper@ == hex@.take(i as int).map_values(|c: char| hex_upper(c)),
        decreases n - i,
    {
        let c = hex[i];
        let u = if 'a' <= c && c <= 'f' {
            (((c as u32) - 32) as u8) as char
        } else {
            c
        };
        upper.push(u);
        assert(hex@.take(i + 1).map_values(|c: char| hex_upper(c)) == hex@.take(
            i as int,
        ).map_values(|c: char| hex_upper(c)).push(hex_upper(hex@[i as int])));
        i = i + 1;
    }
    proof {
        let h = hex_lower(anchor@);
        if h.len() < 12 {
            assert(h.take(n as int) == h);
        }
    }
    let mut ticket_id = "AUDIT-".to_string();
    push_decimal(&mut ticket_id, record_count);
    push_str(&mut ticket_id, "-");
    push_chars(&mut ticket_id, upper.as_slice());
    let mut payload = "MVR-AUDIT|".to_string();
    push_str(&mut payload, ticket_id.as_str());
    push_str(&mut payload, "|");
    push_str(&mut payload, anchor_hash_hex.as_str());
    match snapshot_hash_hex {
        Some(h) => {
            push_str(&mut payload, "|MC:");
            push_str(&mut payload, h);
        },
        None => {},
    }
    AuditChainTicket { ticket_id, anchor_hash_hex, barcode_payload: payload }
}

/// One file of a market-conditions folder: its name and its contents.
#[derive(Debug, Clone)]
pub struct MarketFile {
    pub name: String,
    pub data: Vec<u8>,
}

/// What the snapshot hash covers for each file: the byte length of its name (four
/// bytes, little-endian), the name's bytes, and the SHA-256 of its contents.
pub open spec fn market_files_input(files: Seq<MarketFile>) -> Seq<u8>
    decreases files.len(),
{
    if files.len() == 0 {
        Seq::empty()
    } else {
        let f = files.last();
        let name = vstd::utf8::encode_utf8(f.name@);
        market_files_input(files.drop_last()) + le_bytes((name.len() as u32) as nat, 4) + name + sha256_spec(f.data@)
    }
}

/// The snapshot digest of a market-conditions folder: the SHA-256 of the label
/// `market-conditions-snapshot-v1` followed by each file in the order given.
pub open spec fn market_snapshot_spec(files: Seq<MarketFile>) -> Seq<u8> {
    sha256_spec(vstd::utf8::encode_utf8("market-conditions-snapshot-v1"@) + market_files_input(files))
}

/// The digest of a market-conditions folder, its files taken in the order given (the
/// folder is read in name order).
pub fn market_snapshot_digest(files: &Vec<MarketFile>) -> (d: Vec<u8>)
    ensures
        d@ == market_snapshot_spec(files@),
{
    let mut input: Vec<u8> = Vec::new();
    extend_bytes(&mut input, "market-conditions-snapshot-v1".as_bytes());
    let ghost head = input@;
    let mut i: usize = 0;
    while i < files.len()
        invariant
            i <= files.len(),
            input@ == head + market_files_input(files@.take(i as int)),
        decreases files.len() - i,
    {
        let f = &files[i];
        let name = f.name.as_str().as_bytes();
        #[verifier::truncate]
        let name_len: u32 = name.len() as u32;
        extend_bytes(&mut input, u32_le_bytes(name_len).as_slice());
        extend_bytes(&mut input, name);
        let file_digest = sha256(f.data.as_slice());
        extend_bytes(&mut input, file_digest.as_slice());
        assert(files@.take(i + 1).drop_last() == files@.take(i as int));
        i = i + 1;
    }
    assert(files@.take(files.len() as int) == files@);
    sha256(input.as_slice())
}

/// The digest of a market-conditions folder in lower-case hexadecimal.
pub fn market_snapshot_hex(files: &Vec<MarketFile>) -> (h: String)
    ensures
        h@ == hex_lower(market_snapshot_spec(files@)),
{
    let d = market_snapshot_digest(files);
    hex_encode(d.as_slice())
}

/// The payload that a market snapshot is signed over: the SHA-256 of the label
/// `market-snapshot-signature-v1`, the command id and the snapshot digest.
pub open spec fn market_signature_payload_spec(command_id: Seq<char>, digest: Seq<u8>) -> Seq<u8> {
    sha256_spec(
        vstd::utf8::encode_utf8("market-snapshot-signature-v1"@) + vstd::utf8::encode_utf8(command_id) + digest,
    )
}

/// The payload that a market snapshot is signed over.
pub fn market_signature_payload(command_id: &str, snapshot_digest: &[u8]) -> (p: Vec<u8>)
    ensures
        p@ == market_signature_payload_spec(command_id@, snapshot_digest@),
{
    let mut input: Vec<u8> = Vec::new();
    extend_bytes(&mut input, "market-snapshot-signature-v1".as_bytes());
    extend_bytes(&mut input, command_id.as_bytes());
    extend_bytes(&mut input, snapshot_digest);
    sha256(input.as_slice())
}

} // verus!
