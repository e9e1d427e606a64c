use vstd::prelude::*;

verus! {

/// A canonical millisecond timestamp injected at the runtime gateway.
#[derive(Debug, Clone, Copy, PartialEq, Eq, Structural)]
pub struct CanonicalTime(pub u64);

impl CanonicalTime {
    /// Wraps a millisecond value without transformation.
    pub fn from_millis(value: u64) -> (t: Self)
        ensures
            t.0 == value,
    {
        CanonicalTime(value)
    }
}

} // verus!
