//! The boundary conditions of a cubic spline, on three levels: the whole
//! data set, one row of it, and one end of one row.
use vstd::prelude::*;
use vstd::std_specs::convert::FromSpecImpl;
use crate::array::NdArray;
use crate::num::{zero, SplineNum};

verus! {

/// The condition at one end of one row.
#[derive(Debug, Clone, Copy, PartialEq, Eq)]
pub enum SingleBoundary<T> {
    /// The first two segments at this end are one polynomial.
    NotAKnot,
    /// The second derivative at this end is 0; the same as `SecondDeriv` of 0.
    Natural,
    /// The first derivative at this end is 0; the same as `FirstDeriv` of 0.
    Clamped,
    /// The first derivative at this end has the given value.
    FirstDeriv(T),
    /// The second derivative at this end has the given value.
    SecondDeriv(T),
}

/// The condition on one row. There is no periodic variant: a spline is
/// periodic for the whole data set or not at all.
#[derive(Debug, Clone, Copy, PartialEq, Eq)]
pub enum RowBoundary<T> {
    /// Not-a-knot at both ends.
    NotAKnot,
    /// Natural at both ends.
    Natural,
    /// Clamped at both ends.
    Clamped,
    /// A condition of its own at each end.
    Mixed { left: SingleBoundary<T>, right: SingleBoundary<T> },
}

/// A [`RowBoundary`] with the periodic variant added: the form in which a
/// condition reaches the assembly of the linear system, whether it came from
/// the data set as a whole or from one row.
#[derive(Debug, Clone, Copy, PartialEq, Eq)]
pub enum InternalBoundary<T> {
    NotAKnot,
    Natural,
    Clamped,
    Periodic,
    Mixed { left: SingleBoundary<T>, right: SingleBoundary<T> },
}

/// The condition on the whole data set.
#[derive(Debug, Clone, PartialEq, Eq)]
pub enum BoundaryCondition<T> {
    /// Not-a-knot at both ends of every row.
    NotAKnot,
    /// Natural at both ends of every row.
    Natural,
    /// Clamped at both ends of every row.
    Clamped,
    /// The curve repeats: the first and the last sample of every row must be
    /// equal.
    Periodic,
    /// A condition per row. The array has the shape of the data with the
    /// leading axis collapsed to length 1.
    Individual(NdArray<RowBoundary<T>>),
}

/// How a fitted spline treats a query outside its coordinates.
#[derive(Debug, Clone, Copy, PartialEq, Eq)]
pub enum Extrapolate {
    /// The cubic of the nearest segment is continued.
    Yes,
    /// The query is rejected.
    No,
    /// The query is folded back into the range by the period.
    Periodic,
}

impl<T: SplineNum> SingleBoundary<T> {
    /// The condition with `Natural` and `Clamped` written as the derivative
    /// conditions that they abbreviate.
    pub open spec fn specialized(self) -> Self {
        match self {
            SingleBoundary::Natural => SingleBoundary::SecondDeriv(zero::<T>()),
            SingleBoundary::Clamped => SingleBoundary::FirstDeriv(zero::<T>()),
            _ => self,
        }
    }

    /// Rewrites `Natural` as `SecondDeriv` of 0 and `Clamped` as `FirstDeriv`
    /// of 0, and leaves the other conditions as they are.
    pub fn specialize(self) -> (r: Self)
        ensures
            r == self.specialized(),
            !(r is Natural),
            !(r is Clamped),
    {
        match self {
            SingleBoundary::Natural => SingleBoundary::SecondDeriv(T::from_u8(0)),
            SingleBoundary::Clamped => SingleBoundary::FirstDeriv(T::from_u8(0)),
            _ => self,
        }
    }
}

impl<T: SplineNum> InternalBoundary<T> {
    /// The condition with the uniform variants written as `Mixed` with the
    /// same condition at both ends.
    pub open spec fn specialized(self) -> Self {
        match self {
            InternalBoundary::Natural => InternalBoundary::Mixed {
                left: SingleBoundary::Natural,
                right: SingleBoundary::Natural,
            },
            InternalBoundary::NotAKnot => InternalBoundary::Mixed {
                left: SingleBoundary::NotAKnot,
                right: SingleBoundary::NotAKnot,
            },
            InternalBoundary::Clamped => InternalBoundary::Mixed {
                left: SingleBoundary::Clamped,
                right: SingleBoundary::Clamped,
            },
            _ => self,
        }
    }

    /// Rewrites `Natural`, `NotAKnot` and `Clamped` as `Mixed` with that
    /// condition at both ends, so that only `Periodic` and `Mixed` remain.
    pub fn specialize(self) -> (r: Self)
        ensures
            r == self.specialized(),
            r is Periodic || r is Mixed,
    {
        match self {
            InternalBoundary::Natural => InternalBoundary::Mixed {
                left: SingleBoundary::Natural,
                right: SingleBoundary::Natural,
            },
            InternalBoundary::NotAKnot => InternalBoundary::Mixed {
                left: SingleBoundary::NotAKnot,
                right: SingleBoundary::NotAKnot,
            },
            InternalBoundary::Clamped => InternalBoundary::Mixed {
                left: SingleBoundary::Clamped,
                right: SingleBoundary::Clamped,
            },
            _ => self,
        }
    }

    /// The condition that a row's own condition stands for.
    pub open spec fn of_row(row: RowBoundary<T>) -> Self {
        match row {
            RowBoundary::NotAKnot => InternalBoundary::NotAKnot,
            RowBoundary::Natural => InternalBoundary::Natural,
            RowBoundary::Clamped => InternalBoundary::Clamped,
            RowBoundary::Mixed { left, right } => InternalBoundary::Mixed { left, right },
        }
    }
}

impl<T: SplineNum> From<RowBoundary<T>> for InternalBoundary<T> {
    fn from(val: RowBoundary<T>) -> (r: Self) {
        match val {
            RowBoundary::NotAKnot => InternalBoundary::NotAKnot,
            RowBoundary::Natural => InternalBoundary::Natural,
            RowBoundary::Clamped => InternalBoundary::Clamped,
            RowBoundary::Mixed { left, right } => InternalBoundary::Mixed { left, right },
        }
    }
}

impl<T: SplineNum> FromSpecImpl<RowBoundary<T>> for InternalBoundary<T> {
    open spec fn obeys_from_spec() -> bool {
        true
    }

    open spec fn from_spec(val: RowBoundary<T>) -> Self {
        InternalBoundary::of_row(val)
    }
}

impl<T> Default for BoundaryCondition<T> {
    fn default() -> (r: Self)
        ensures
            r is NotAKnot,
    {
        BoundaryCondition::NotAKnot
    }
}

impl<T> Default for RowBoundary<T> {
    fn default() -> (r: Self)
        ensures
            r is NotAKnot,
    {
        RowBoundary::NotAKnot
    }
}

impl<T> Default for SingleBoundary<T> {
    fn default() -> (r: Self)
        ensures
            r is NotAKnot,
    {
        SingleBoundary::NotAKnot
    }
}

} // verus!
