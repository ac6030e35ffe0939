//! Coefficients of constraints.

use vstd::prelude::*;

verus! {

/// The number of 64-bit limbs in the representation of a field element.
pub const LIMBS: usize = 6;

/// An element of one of the two prime fields of the curve, held as the limbs
/// of its 384-bit representation, least significant first.
///
/// This crate moves field elements and never computes with them: two are the
/// same element exactly when their limbs are equal.
#[derive(Clone, Copy, Debug, PartialEq, Eq)]
pub struct FieldElement {
    pub limbs: [u64; LIMBS],
}

} // verus!
