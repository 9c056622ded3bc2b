use crate::scalar::Scalar;
use vstd::prelude::*;

verus! {

/// The map from a unit's weighted sum to its output.
///
/// `Threshold` in this module is proved against its model. An instance that is written
/// elsewhere without proof, such as the logistic function on floating-point numbers, is taken
/// at its word.
pub trait Activation<T: Scalar> {
    /// What `apply` returns.
    spec fn apply_spec(total: T) -> T;

    /// The output that belongs to the weighted sum `total`.
    fn apply(total: T) -> (r: T)
        ensures
            r == Self::apply_spec(total),
    ;
}

/// The unit step: one from zero upward, zero below.
pub struct Threshold;

impl<T: Scalar> Activation<T> for Threshold {
    open spec fn apply_spec(total: T) -> T {
        if total.is_non_negative_spec() {
            T::one_spec()
        } else {
            T::zero_spec()
        }
    }

    fn apply(total: T) -> (r: T) {
        if total.is_non_negative() {
            T::one()
        } else {
            T::zero()
        }
    }
}

} // verus!
