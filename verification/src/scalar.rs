//! The numeric backend: scalar arithmetic injected into the engines.

use vstd::prelude::*;

verus! {

/// The scalar arithmetic the orthogonalization engines are built on.
///
/// Every executable operation is paired with a specification twin that the
/// implementation promises to compute; the engines' contracts are stated over
/// those twins, which pins each entry of the produced factors to the exact
/// recurrence of the chosen procedure over the backend's operations.
///
/// Nothing further is assumed of the arithmetic. In particular no algebraic
/// law (associativity, neutral elements, and so on) is available to the
/// proofs: a double-precision backend obeys none of them exactly. The only
/// obligation an implementation takes on is that each operation is a pure
/// function of its arguments.
pub trait Scalar: Sized + Copy {
    /// The value `plus` computes.
    spec fn plus_spec(self, other: Self) -> Self;

    /// The value `minus` computes.
    spec fn minus_spec(self, other: Self) -> Self;

    /// The value `times` computes.
    spec fn times_spec(self, other: Self) -> Self;

    /// The value `divided_by` computes.
    spec fn divided_by_spec(self, other: Self) -> Self;

    /// The value `square_root` computes.
    spec fn square_root_spec(self) -> Self;

    /// The value `zero` returns: the additive base of sums and the value
    /// buffers are filled with on allocation.
    spec fn zero_spec() -> Self;

    /// Addition.
    fn plus(self, other: Self) -> (r: Self)
        ensures
            r == self.plus_spec(other),
    ;

    /// Subtraction.
    fn minus(self, other: Self) -> (r: Self)
        ensures
            r == self.minus_spec(other),
    ;

    /// Multiplication.
    fn times(self, other: Self) -> (r: Self)
        ensures
            r == self.times_spec(other),
    ;

    /// Division. Implementations must be total: a backend that would trap on
    /// a zero divisor cannot be used here (IEEE doubles divide totally).
    fn divided_by(self, other: Self) -> (r: Self)
        ensures
            r == self.divided_by_spec(other),
    ;

    /// The square root, used for the Euclidean norm.
    fn square_root(self) -> (r: Self)
        ensures
            r == self.square_root_spec(),
    ;

    /// The zero scalar.
    fn zero() -> (r: Self)
        ensures
            r == Self::zero_spec(),
    ;
}

} // verus!
