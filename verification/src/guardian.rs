//! Independent replay of a canonical batch's hash chain.
use vstd::prelude::*;
use crate::sced_offer_chain::{
    chain_matches, copy_records, final_chain_hash_spec, has_duplicate_key, is_canonical_order,
    lemma_canonical_order_unique, lemma_chain_final_hash_unique, same_key_groups, status_text,
    verify_records, ChainedRecord, ScedResourceOfferRecord, VerifierReport,
};
use crate::sprint1::{batch_is_canonical, CanonicalBatch};

verus! {

/// Re-derives a batch's chain from its records and compares the result with
/// the head and count the batch carries.
#[derive(Debug)]
pub struct GuardianAuditor;

impl Default for GuardianAuditor {
    fn default() -> (g: Self) {
        GuardianAuditor
    }
}

proof fn lemma_replay_of_canonical_batch(b: CanonicalBatch, t: Seq<ScedResourceOfferRecord>, chain: Seq<ChainedRecord>)
    requires
        batch_is_canonical(b),
        is_canonical_order(t, b.records@),
        chain_matches(t, chain),
    ensures
        t == b.records@,
        final_chain_hash_spec(chain) == b.final_chain_hash@,
{
    assert(same_key_groups(b.records@, b.records@));
    lemma_canonical_order_unique(t, b.records@, b.records@, b.records@);
    lemma_chain_final_hash_unique(t, chain, b.chain@);
}

impl GuardianAuditor {
    /// Verifies a batch against its own final chain hash and record count.
    /// A canonical batch always passes, and the report carries its head.
    pub fn verify_batch(&self, batch: &CanonicalBatch) -> (report: VerifierReport)
        ensures
            batch_is_canonical(*batch) ==> {
                &&& report.status@ == status_text(true)
                &&& report.final_chain_hash@ == batch.final_chain_hash@
                &&& report.records_verified == batch.records_total
                &&& report.errors@.len() == 0
            },
            has_duplicate_key(batch.records@) ==> report.status@ == status_text(false),
    {
        let records = copy_records(&batch.records);
        let report = verify_records(records, Some(batch.final_chain_hash.as_str()), Some(batch.records_total));
        proof {
            if batch_is_canonical(*batch) {
                let (t, chain) = choose|t: Seq<ScedResourceOfferRecord>, chain: Seq<ChainedRecord>|
                    {
                        &&& is_canonical_order(t, batch.records@)
                        &&& chain_matches(t, chain)
                        &&& report.final_chain_hash@ == final_chain_hash_spec(chain)
                        &&& report.records_total == t.len()
                        &&& {
                            let count_ok = batch.records_total == t.len();
                            let hash_ok = batch.final_chain_hash@ == final_chain_hash_spec(chain);
                            &&& report.status@ == status_text(count_ok && hash_ok)
                            &&& report.records_verified == if count_ok && hash_ok { t.len() as usize } else { 0 }
                            &&& report.errors@.len() == (if count_ok { 0int } else { 1int }) + (if hash_ok { 0int } else { 1int })
                        }
                    };
                lemma_replay_of_canonical_batch(*batch, t, chain);
            }
        }
        report
    }

    /// Verifies a batch's records against the given expectations (see
    /// `verify_records`).
    pub fn verify_batch_against(
        &self,
        batch: &CanonicalBatch,
        expected_final_chain_hash: Option<&str>,
        expected_records_total: Option<usize>,
    ) -> (report: VerifierReport)
        ensures
            has_duplicate_key(batch.records@) ==> report.status@ == status_text(false),
            !has_duplicate_key(batch.records@) ==> exists|t: Seq<ScedResourceOfferRecord>, chain: Seq<ChainedRecord>|
                {
                    &&& is_canonical_order(t, batch.records@)
                    &&& chain_matches(t, chain)
                    &&& report.final_chain_hash@ == final_chain_hash_spec(chain)
                    &&& {
                        let count_ok = match expected_records_total {
                            Some(n) => n == t.len(),
                            None => true,
                        };
                        let hash_ok = match expected_final_chain_hash {
                            Some(h) => h@ == final_chain_hash_spec(chain),
                            None => true,
                        };
                        report.status@ == status_text(count_ok && hash_ok)
                    }
                },
    {
        let records = copy_records(&batch.records);
        verify_records(records, expected_final_chain_hash, expected_records_total)
    }
}

} // verus!
