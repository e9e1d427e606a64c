//! Why a sparse admittance-matrix file was refused.
use vstd::prelude::*;

verus! {

/// A refused sparse Ybus file: its header is not the expected one, or a row could not
/// be read (with the reason).
#[derive(Debug)]
pub enum SparseYbusCsvError {
    CsvSchemaMismatch,
    CsvMalformed(String),
}

} // verus!
