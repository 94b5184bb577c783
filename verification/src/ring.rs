//! The `Ring` trait: identity elements and multiplicative inversion for
//! scalar types, with the inverse of `x` defined as `1 / x` in the
//! truncating integer sense.

use vstd::prelude::*;

verus! {

/// Algebraic-ring features of a scalar type: the two identity elements
/// and multiplicative inversion.
pub trait Ring: Sized + Copy {
    /// The additive identity.
    spec fn zero_spec() -> Self;

    /// The multiplicative identity.
    spec fn one_spec() -> Self;

    /// The multiplicative inverse, `1 / self`.
    spec fn inv_spec(self) -> Self;

    /// The additive identity.
    fn ring_zero() -> (r: Self)
        ensures
            r == Self::zero_spec(),
    ;

    /// The multiplicative identity.
    fn ring_one() -> (r: Self)
        ensures
            r == Self::one_spec(),
    ;

    /// The multiplicative inverse, `1 / self`.
    fn inv(self) -> (r: Self)
        requires
            self != Self::zero_spec(),
        ensures
            r == self.inv_spec(),
    ;
}

impl Ring for i64 {
    open spec fn zero_spec() -> i64 {
        0i64
    }

    open spec fn one_spec() -> i64 {
        1i64
    }

    open spec fn inv_spec(self) -> i64 {
        if self == 1i64 {
            1i64
        } else if self == -1i64 {
            -1i64
        } else {
            0i64
        }
    }

    fn ring_zero() -> (r: i64) {
        0
    }

    fn ring_one() -> (r: i64) {
        1
    }

    fn inv(self) -> (r: i64) {
        if self == 1 {
            1
        } else if self == -1 {
            -1
        } else {
            0
        }
    }
}

} // verus!
