//! Canonical ingestion of a SCED offer CSV batch into a hash-chained batch.
use vstd::prelude::*;
use crate::sced_offer_chain::{
    build_hash_chain, chain_matches, copy_records, failure_of, final_chain_hash_spec,
    has_duplicate_key, is_canonical_order, lemma_canonical_order_unique, lemma_canonical_order_has_duplicate, lemma_has_duplicate_key_iff, parse_csv,
    parse_csv_spec, record_views, sort_records, sorted_by_key, ChainedRecord, ParseError, ScedResourceOfferRecord,
    same_key_groups,
};
use crate::text::push_str;

verus! {

pub const SCHEMA_VERSION: &'static str = "sced.v1";

pub const HASH_SPEC_VERSION: &'static str = "sha256.chain.v1";

/// A batch in canonical order with its hash chain.
#[derive(Debug, Clone, PartialEq, Eq)]
pub struct CanonicalBatch {
    pub schema_version: String,
    pub hash_spec_version: String,
    pub records_total: usize,
    pub records: Vec<ScedResourceOfferRecord>,
    pub chain: Vec<ChainedRecord>,
    pub final_chain_hash: String,
}

/// A batch is canonical: its records are in canonical order, its chain is the
/// hash chain over them, and its head and count agree with the chain.
pub open spec fn batch_is_canonical(b: CanonicalBatch) -> bool {
    &&& sorted_by_key(b.records@)
    &&& !has_duplicate_key(b.records@)
    &&& chain_matches(b.records@, b.chain@)
    &&& b.records_total == b.records@.len()
    &&& b.final_chain_hash@ == final_chain_hash_spec(b.chain@)
    &&& b.schema_version@ == "sced.v1"@
    &&& b.hash_spec_version@ == "sha256.chain.v1"@
}

/// Parses the CSV text, sorts the records into canonical order and hash-chains
/// them. A parse failure or a duplicated primary key refuses the batch.
pub fn ingest_and_canonicalize_csv(input: &str) -> (r: Result<CanonicalBatch, ParseError>)
    ensures
        match parse_csv_spec(input@) {
            Err(f) => r matches Err(e) && failure_of(e) == f,
            Ok(views) => exists|s: Seq<ScedResourceOfferRecord>|
                {
                    &&& #[trigger] record_views(s) == views
                    &&& match r {
                        Ok(b) => {
                            &&& !has_duplicate_key(s)
                            &&& is_canonical_order(b.records@, s)
                            &&& batch_is_canonical(b)
                        },
                        Err(e) => has_duplicate_key(s) && e is DuplicatePrimaryKey,
                    }
                },
        },
{
    let mut records = parse_csv(input)?;
    let ghost s = records@;
    sort_records(&mut records);
    let copy = copy_records(&records);
    let chain = match build_hash_chain(copy) {
        Ok(c) => c,
        Err(e) => {
            proof {
                assert(e is DuplicatePrimaryKey);
                lemma_has_duplicate_key_iff(records@);
                lemma_canonical_order_has_duplicate(records@, s);
            }
            return Err(e);
        },
    };
    let ghost t = choose|t: Seq<ScedResourceOfferRecord>| is_canonical_order(t, records@) && chain_matches(t, chain@);
    proof {
        lemma_canonical_order_has_duplicate(records@, s);
        assert(same_key_groups(records@, records@));
        lemma_canonical_order_unique(t, records@, records@, records@);
    }
    let n = chain.len();
    let final_chain_hash = if n == 0 {
        let mut z = String::new();
        push_str(&mut z, "0");
        z
    } else {
        chain[n - 1].chain_hash.clone()
    };
    proof {
        reveal_strlit("0");
    }
    let mut schema_version = String::new();
    push_str(&mut schema_version, SCHEMA_VERSION);
    let mut hash_spec_version = String::new();
    push_str(&mut hash_spec_version, HASH_SPEC_VERSION);
    let b = CanonicalBatch {
        schema_version,
        hash_spec_version,
        records_total: records.len(),
        records,
        chain,
        final_chain_hash,
    };
    assert(chain_matches(b.records@, b.chain@));
    assert(b.final_chain_hash@ == final_chain_hash_spec(b.chain@));
    assert(b.schema_version@ == "sced.v1"@);
    assert(b.hash_spec_version@ == "sha256.chain.v1"@);
    assert(record_views(s) == parse_csv_spec(input@)->Ok_0);
    Ok(b)
}

} // verus!
