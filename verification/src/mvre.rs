//! The control-center side of canonical batch delivery.
use vstd::prelude::*;
use crate::sprint1::CanonicalBatch;

verus! {

/// Acknowledgement of a consumed batch.
#[derive(Debug, Clone, PartialEq, Eq)]
pub struct MvreIngestAck {
    pub accepted: bool,
    pub records_total: usize,
    pub final_chain_hash: String,
}

/// Remembers the head of the last batch it consumed.
#[derive(Debug)]
pub struct MvreControlCenter {
    last_seen_chain_hash: Option<String>,
}

impl Default for MvreControlCenter {
    fn default() -> (c: Self)
        ensures
            c.last_seen() is None,
    {
        MvreControlCenter { last_seen_chain_hash: None }
    }
}

impl MvreControlCenter {
    /// The head of the last consumed batch, if any.
    pub closed spec fn last_seen(&self) -> Option<Seq<char>> {
        match self.last_seen_chain_hash {
            Some(h) => Some(h@),
            None => None,
        }
    }

    /// Accepts a batch, remembering its final chain hash.
    pub fn consume_canonical_batch(&mut self, batch: &CanonicalBatch) -> (ack: MvreIngestAck)
        ensures
            final(self).last_seen() == Some(batch.final_chain_hash@),
            ack.accepted,
            ack.records_total == batch.records_total,
            ack.final_chain_hash@ == batch.final_chain_hash@,
    {
        self.last_seen_chain_hash = Some(batch.final_chain_hash.clone());
        MvreIngestAck {
            accepted: true,
            records_total: batch.records_total,
            final_chain_hash: batch.final_chain_hash.clone(),
        }
    }

    /// The head of the last consumed batch, if any.
    pub fn last_seen_chain_hash(&self) -> (r: Option<&str>)
        ensures
            match (r, self.last_seen()) {
                (Some(a), Some(b)) => a@ == b,
                (None, None) => true,
                _ => false,
            },
    {
        match &self.last_seen_chain_hash {
            Some(h) => Some(h.as_str()),
            None => None,
        }
    }
}

} // verus!
