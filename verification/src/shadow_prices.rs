//! Why a shadow-price proxy file was refused.
use vstd::prelude::*;

verus! {

/// A refused shadow-price proxy file: its header is not the expected one, or a row
/// could not be read (with the reason).
#[derive(Debug)]
pub enum ShadowPriceCsvError {
    CsvSchemaMismatch,
    CsvMalformed(String),
}

} // verus!
