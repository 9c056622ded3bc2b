use vstd::prelude::*;

verus! {

/// Two lengths that an operation needs equal and found different.
#[derive(Clone, Copy, Debug, PartialEq, Eq, Structural)]
pub struct DimensionMismatch {
    /// The length that the operation goes by.
    pub expected: usize,
    /// The length that was handed in.
    pub found: usize,
}

} // verus!
