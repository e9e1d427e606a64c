//! One row of the monthly MORA resource details report.
use vstd::prelude::*;

verus! {

/// One resource of the report, every cell as it appears in the file (trimmed).
#[derive(Debug)]
pub struct MoraResourceRow {
    pub report_month: String,
    pub category: String,
    pub row_number: u32,
    pub unit_name: String,
    pub inr: String,
    pub unit_code: String,
    pub county: String,
    pub fuel: String,
    pub zone: String,
    pub in_service_year: String,
    pub installed_capacity_mw: String,
    pub mora_capacity_mw: String,
}

} // verus!
