//! The arithmetic that an element of the coordinates and of the data offers.
use vstd::prelude::*;

verus! {

/// What a coordinate or data value must offer to be interpolated.
///
/// Every operation is total and is a function of its operands: the
/// specification function next to each method names its result, and the
/// contracts of this crate are stated over those names. No algebraic law is
/// asked of an implementor, so that rounding arithmetic qualifies; what the
/// crate proves holds of the operations exactly as they are performed, in
/// the order in which they are performed.
///
/// An implementor for a floating-point type maps each method to the
/// operation of the same meaning. There, the results are functions of the
/// operands up to the payload of a NaN.
///
/// In compiled code the specification functions remain items of the trait,
/// so an implementor that is not verified writes them too: each with the
/// body of its method. They are never called.
pub trait SplineNum: Copy {
    /// The value that stands for the small integer `n`.
    spec fn from_u8_spec(n: u8) -> Self;

    /// Converts a small integer; the crate uses 0, 1, 2 and 3.
    fn from_u8(n: u8) -> (r: Self)
        ensures
            r == Self::from_u8_spec(n),
    ;

    /// The value of `self + rhs`.
    spec fn plus_spec(self, rhs: Self) -> Self;

    /// Addition.
    fn plus(self, rhs: Self) -> (r: Self)
        ensures
            r == self.plus_spec(rhs),
    ;

    /// The value of `self - rhs`.
    spec fn minus_spec(self, rhs: Self) -> Self;

    /// Subtraction.
    fn minus(self, rhs: Self) -> (r: Self)
        ensures
            r == self.minus_spec(rhs),
    ;

    /// The value of `self * rhs`.
    spec fn times_spec(self, rhs: Self) -> Self;

    /// Multiplication.
    fn times(self, rhs: Self) -> (r: Self)
        ensures
            r == self.times_spec(rhs),
    ;

    /// The value of `self / rhs`.
    spec fn over_spec(self, rhs: Self) -> Self;

    /// Division. It is total: a zero divisor yields whatever the element type
    /// defines for it.
    fn over(self, rhs: Self) -> (r: Self)
        ensures
            r == self.over_spec(rhs),
    ;

    /// The value of `-self`.
    spec fn negate_spec(self) -> Self;

    /// Negation.
    fn negate(self) -> (r: Self)
        ensures
            r == self.negate_spec(),
    ;

    /// The value of `self` raised to `exponent`.
    spec fn power_spec(self, exponent: Self) -> Self;

    /// Exponentiation.
    fn power(self, exponent: Self) -> (r: Self)
        ensures
            r == self.power_spec(exponent),
    ;

    /// The least non-negative remainder of `self` divided by `rhs`.
    spec fn rem_euclid_spec(self, rhs: Self) -> Self;

    /// Euclidean remainder.
    fn rem_euclid(self, rhs: Self) -> (r: Self)
        ensures
            r == self.rem_euclid_spec(rhs),
    ;

    /// Whether `self <= rhs`.
    spec fn at_most_spec(self, rhs: Self) -> bool;

    /// Comparison by `<=`.
    fn at_most(self, rhs: Self) -> (r: bool)
        ensures
            r == self.at_most_spec(rhs),
    ;

    /// Whether `self` and `rhs` compare equal. This is the equality of the
    /// element type, which need not be identity: a floating-point NaN equals
    /// nothing, itself included.
    spec fn equals_spec(self, rhs: Self) -> bool;

    /// Comparison by `==`.
    fn equals(self, rhs: Self) -> (r: bool)
        ensures
            r == self.equals_spec(rhs),
    ;

    /// The text by which error messages show `self`.
    spec fn describe_spec(self) -> String;

    /// Renders the value for an error message.
    fn describe(self) -> (r: String)
        ensures
            r@ == self.describe_spec()@,
    ;
}

/// The element that stands for 0.
pub open spec fn zero<T: SplineNum>() -> T {
    T::from_u8_spec(0)
}

/// The element that stands for 1.
pub open spec fn one<T: SplineNum>() -> T {
    T::from_u8_spec(1)
}

/// The element that stands for 2.
pub open spec fn two<T: SplineNum>() -> T {
    T::from_u8_spec(2)
}

/// The element that stands for 3.
pub open spec fn three<T: SplineNum>() -> T {
    T::from_u8_spec(3)
}

} // verus!
