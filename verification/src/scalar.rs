//! The arithmetic the solver needs from a number type.

use vstd::prelude::*;

verus! {

/// A number the solver can compute with.
///
/// Every operation comes in two forms. The first, a specification function,
/// names the value the operation yields; contracts throughout the crate are
/// written over these names. The second is the executable operation, which
/// must return exactly the named value. An implementation for hardware
/// numbers defines the first form as the computation itself and lets the
/// second forward to it.
pub trait Scalar: Sized + Copy {
    /// The number that stands for the integer `n`.
    spec fn of_int(n: i128) -> Self;

    /// `self + rhs`.
    spec fn sum(self, rhs: Self) -> Self;

    /// `self - rhs`.
    spec fn difference(self, rhs: Self) -> Self;

    /// `self * rhs`.
    spec fn product(self, rhs: Self) -> Self;

    /// `self / rhs`.
    spec fn quotient(self, rhs: Self) -> Self;

    /// `self` raised to the power `halves / 2`.
    spec fn power(self, halves: u32) -> Self;

    /// The larger of `self` and zero.
    spec fn positive_part(self) -> Self;

    /// Whether `self` equals zero.
    spec fn vanishes(self) -> bool;

    /// Whether `self` is zero or more.
    spec fn non_negative(self) -> bool;

    fn from_int(n: i128) -> (out: Self)
        ensures
            out == Self::of_int(n),
    ;

    fn add(self, rhs: Self) -> (out: Self)
        ensures
            out == self.sum(rhs),
    ;

    fn sub(self, rhs: Self) -> (out: Self)
        ensures
            out == self.difference(rhs),
    ;

    fn mul(self, rhs: Self) -> (out: Self)
        ensures
            out == self.product(rhs),
    ;

    fn div(self, rhs: Self) -> (out: Self)
        ensures
            out == self.quotient(rhs),
    ;

    fn pow_halves(self, halves: u32) -> (out: Self)
        ensures
            out == self.power(halves),
    ;

    fn max_zero(self) -> (out: Self)
        ensures
            out == self.positive_part(),
    ;

    fn is_zero(self) -> (out: bool)
        ensures
            out == self.vanishes(),
    ;

    fn is_non_negative(self) -> (out: bool)
        ensures
            out == self.non_negative(),
    ;
}

} // verus!
