//! The constraint evaluator and the admissibility checker of power-state transitions.
//! Both are stateless; what they compute is on floating-point power states.
use vstd::prelude::*;

verus! {

/// Evaluates the constraint violations of a proposed transition; diagnostic only.
#[derive(Debug, Clone, Copy, PartialEq, Eq, Structural)]
pub struct ConstraintEvaluator;

/// Decides whether a proposed transition is admissible; pure.
#[derive(Debug, Clone, Copy, PartialEq, Eq, Structural)]
pub struct AdmissibilityChecker;

} // verus!
