//! Grid stress levels.
use vstd::prelude::*;

verus! {

/// How stressed the grid is, from normal to collapse risk.
#[derive(Debug, Clone, Copy, PartialEq, Eq, Structural)]
pub enum StressState {
    Normal,
    Tight,
    Emergency,
    CollapseRisk,
}

} // verus!
