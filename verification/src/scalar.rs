//! The arithmetic that the cells of a field are made of.
use vstd::prelude::*;

verus! {

/// A number type with the operations that the solver performs on cells.
///
/// Each operation comes with a specification function, named after it with
/// `_spec` appended, that says which value it returns: the operation is a
/// function of its operands alone. The solver's contracts are stated over
/// these specification functions, so they hold for every implementation,
/// whether its arithmetic is exact or rounds. Code that is not verified, and
/// so cannot write a specification function, implements each one as a plain
/// function that calls the operation itself.
pub trait Scalar: Copy {
    /// The scalar that stands for the integer `k`.
    spec fn from_int_spec(k: i64) -> Self;

    fn from_int(k: i64) -> (r: Self)
        ensures
            r == Self::from_int_spec(k),
    ;

    /// Sum.
    spec fn plus_spec(self, rhs: Self) -> Self;

    fn plus(self, rhs: Self) -> (r: Self)
        ensures
            r == self.plus_spec(rhs),
    ;

    /// Difference.
    spec fn minus_spec(self, rhs: Self) -> Self;

    fn minus(self, rhs: Self) -> (r: Self)
        ensures
            r == self.minus_spec(rhs),
    ;

    /// Product.
    spec fn times_spec(self, rhs: Self) -> Self;

    fn times(self, rhs: Self) -> (r: Self)
        ensures
            r == self.times_spec(rhs),
    ;

    /// Quotient. It is defined for every divisor: what a division by zero
    /// yields is up to the implementation.
    spec fn over_spec(self, rhs: Self) -> Self;

    fn over(self, rhs: Self) -> (r: Self)
        ensures
            r == self.over_spec(rhs),
    ;

    /// Additive inverse.
    spec fn negated_spec(self) -> Self;

    fn negated(self) -> (r: Self)
        ensures
            r == self.negated_spec(),
    ;

    /// Strict order.
    spec fn less_than_spec(self, rhs: Self) -> bool;

    fn less_than(self, rhs: Self) -> (r: bool)
        ensures
            r == self.less_than_spec(rhs),
    ;

    /// The largest integer that is not above the scalar.
    spec fn floor_spec(self) -> i64;

    fn floor(self) -> (r: i64)
        ensures
            r == self.floor_spec(),
    ;
}

/// The scalar 0.
pub open spec fn zero<S: Scalar>() -> S {
    S::from_int_spec(0)
}

/// The scalar 1.
pub open spec fn one<S: Scalar>() -> S {
    S::from_int_spec(1)
}

/// The scalar `num / den`.
pub open spec fn ratio<S: Scalar>(num: i64, den: i64) -> S {
    S::from_int_spec(num).over_spec(S::from_int_spec(den))
}

/// The scalar 1/2.
pub open spec fn half<S: Scalar>() -> S {
    ratio::<S>(1, 2)
}

/// The field of `len` cells that are all zero.
pub open spec fn zeros<S: Scalar>(len: nat) -> Seq<S> {
    Seq::new(len, |c: int| zero::<S>())
}

/// The scalar `num / den`.
pub fn make_ratio<S: Scalar>(num: i64, den: i64) -> (r: S)
    ensures
        r == ratio::<S>(num, den),
{
    S::from_int(num).over(S::from_int(den))
}

/// A scalar whose arithmetic obeys the laws of exact numbers on which the
/// solver's algebraic properties rest.
pub trait ExactScalar: Scalar {
    /// Adding zero changes nothing.
    proof fn law_plus_zero(x: Self)
        ensures
            x.plus_spec(zero::<Self>()) == x,
            zero::<Self>().plus_spec(x) == x,
    ;

    /// Subtracting zero changes nothing, and a scalar minus itself is zero.
    proof fn law_minus(x: Self)
        ensures
            x.minus_spec(zero::<Self>()) == x,
            x.minus_spec(x) == zero::<Self>(),
    ;

    /// A product with zero is zero.
    proof fn law_times_zero(x: Self)
        ensures
            x.times_spec(zero::<Self>()) == zero::<Self>(),
            zero::<Self>().times_spec(x) == zero::<Self>(),
    ;

    /// One is neutral for the product.
    proof fn law_times_one(x: Self)
        ensures
            x.times_spec(one::<Self>()) == x,
            one::<Self>().times_spec(x) == x,
    ;

    /// Dividing by one changes nothing, and zero divided by anything but
    /// zero is zero.
    proof fn law_over(x: Self)
        ensures
            x.over_spec(one::<Self>()) == x,
            x != zero::<Self>() ==> zero::<Self>().over_spec(x) == zero::<Self>(),
    ;

    /// Zero is its own inverse.
    proof fn law_negated_zero()
        ensures
            zero::<Self>().negated_spec() == zero::<Self>(),
    ;

    /// The integers from one up to this bound are represented exactly, and
    /// so is the point half a step above each.
    spec fn exact_upto() -> i64;

    /// An exactly represented integer `k` between one and `n` is its own
    /// floor, is not below one half, and is not above `n` plus one half.
    proof fn law_lattice(n: i64, k: i64)
        requires
            1 <= k <= n <= Self::exact_upto(),
        ensures
            Self::from_int_spec(k).floor_spec() == k,
            !Self::from_int_spec(k).less_than_spec(half::<Self>()),
            !Self::from_int_spec(n).plus_spec(half::<Self>()).less_than_spec(
                Self::from_int_spec(k),
            ),
    ;

    /// Only the integer zero is represented by the scalar zero.
    proof fn law_from_int_nonzero(k: i64)
        requires
            k != 0,
        ensures
            Self::from_int_spec(k) != zero::<Self>(),
    ;
}

} // verus!
