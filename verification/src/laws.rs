//! What holds of the fitted splines whatever the coordinates and the data.
use vstd::prelude::*;
use crate::array::{lemma_same_array, lemma_width_of_update, NdArray, NdSpec};
use crate::boundary::{BoundaryCondition, InternalBoundary, RowBoundary, SingleBoundary};
use crate::cubic_spline::{fitted, row_condition, slopes, CubicSplineStrategy};
use crate::num;
use crate::num::SplineNum;
use crate::system::{mixed_bands, mixed_rhs};

verus! {

/// The condition on the whole data set that a uniform condition on a row
/// stands for; a `Mixed` condition has none and is read as not-a-knot.
pub open spec fn uniform_condition<T: SplineNum>(row: RowBoundary<T>) -> BoundaryCondition<T> {
    match row {
        RowBoundary::Natural => BoundaryCondition::Natural,
        RowBoundary::Clamped => BoundaryCondition::Clamped,
        _ => BoundaryCondition::NotAKnot,
    }
}

/// A natural end is an end whose second derivative is 0, and a clamped end
/// is an end whose first derivative is 0: the slopes are the same, whether
/// the condition is given in the one form or in the other, at either end or
/// for the row as a whole.
pub proof fn lemma_specialization<T: SplineNum>(
    x: Seq<T>,
    y: Seq<T>,
    left: SingleBoundary<T>,
    right: SingleBoundary<T>,
)
    ensures
        slopes(x, y, InternalBoundary::Mixed { left, right }) == slopes(
            x,
            y,
            InternalBoundary::Mixed { left: left.specialized(), right: right.specialized() },
        ),
        slopes(x, y, InternalBoundary::Natural) == slopes(
            x,
            y,
            InternalBoundary::Mixed {
                left: SingleBoundary::SecondDeriv(num::zero::<T>()),
                right: SingleBoundary::SecondDeriv(num::zero::<T>()),
            },
        ),
        slopes(x, y, InternalBoundary::Clamped) == slopes(
            x,
            y,
            InternalBoundary::Mixed {
                left: SingleBoundary::FirstDeriv(num::zero::<T>()),
                right: SingleBoundary::FirstDeriv(num::zero::<T>()),
            },
        ),
{
}

/// The natural condition on the whole data set and a per-row condition that
/// gives every row a second derivative of 0 at both ends have the same
/// coefficients.
pub proof fn lemma_natural_is_second_derivative_zero<T: SplineNum>(
    x: Seq<T>,
    data: NdSpec<T>,
    rows: NdArray<RowBoundary<T>>,
    a: NdSpec<T>,
    b: NdSpec<T>,
)
    requires
        forall|j: int|
            0 <= j < data.width() ==> #[trigger] rows@.at(0, j) == (RowBoundary::Mixed {
                left: SingleBoundary::SecondDeriv(num::zero::<T>()),
                right: SingleBoundary::SecondDeriv(num::zero::<T>()),
            }),
    ensures
        fitted(x, data, BoundaryCondition::Natural, a, b) <==> fitted(
            x,
            data,
            BoundaryCondition::Individual(rows),
            a,
            b,
        ),
{
    assert forall|j: int| 0 <= j < data.width() implies slopes(
        x,
        data.column(j),
        row_condition(BoundaryCondition::<T>::Natural, j),
    ) == slopes(x, data.column(j), row_condition(BoundaryCondition::Individual(rows), j)) by {
        assert(rows@.at(0, j) == (RowBoundary::Mixed {
            left: SingleBoundary::SecondDeriv(num::zero::<T>()),
            right: SingleBoundary::SecondDeriv(num::zero::<T>()),
        }));
        lemma_specialization(
            x,
            data.column(j),
            SingleBoundary::<T>::Natural,
            SingleBoundary::<T>::Natural,
        );
    }
}

/// A per-row condition that gives every row the same uniform condition has
/// the coefficients of that condition on the whole data set.
pub proof fn lemma_uniform_rows<T: SplineNum>(
    x: Seq<T>,
    data: NdSpec<T>,
    rows: NdArray<RowBoundary<T>>,
    uniform: RowBoundary<T>,
    a: NdSpec<T>,
    b: NdSpec<T>,
)
    requires
        !(uniform is Mixed),
        forall|j: int| 0 <= j < data.width() ==> #[trigger] rows@.at(0, j) == uniform,
    ensures
        fitted(x, data, BoundaryCondition::Individual(rows), a, b) <==> fitted(
            x,
            data,
            uniform_condition(uniform),
            a,
            b,
        ),
{
    assert forall|j: int| 0 <= j < data.width() implies row_condition(
        BoundaryCondition::Individual(rows),
        j,
    ) == row_condition(uniform_condition(uniform), j) by {
        assert(rows@.at(0, j) == uniform);
    }
}

/// The coefficients of a spline are determined by the coordinates, the data
/// and the condition.
pub proof fn lemma_fitted_once<T: SplineNum>(
    x: Seq<T>,
    data: NdSpec<T>,
    boundary: BoundaryCondition<T>,
    a: NdSpec<T>,
    b: NdSpec<T>,
    a2: NdSpec<T>,
    b2: NdSpec<T>,
)
    requires
        data.shape.len() >= 1,
        x.len() >= 1,
        fitted(x, data, boundary, a, b),
        fitted(x, data, boundary, a2, b2),
    ensures
        a == a2,
        b == b2,
{
    lemma_width_of_update(data.shape, (x.len() - 1) as usize);
    lemma_same_array(a, a2);
    lemma_same_array(b, b2);
}

/// Two splines fitted to the same data, the one under a per-row condition
/// that gives every row the same uniform condition and the other under that
/// condition on the whole data set, have the same value at every query.
pub proof fn lemma_uniform_rows_evaluate_alike<T: SplineNum>(
    x: Seq<T>,
    data: NdSpec<T>,
    rows: NdArray<RowBoundary<T>>,
    uniform: RowBoundary<T>,
    by_row: CubicSplineStrategy<T>,
    as_whole: CubicSplineStrategy<T>,
    query: T,
)
    requires
        data.shape.len() >= 1,
        x.len() >= 1,
        !(uniform is Mixed),
        forall|j: int| 0 <= j < data.width() ==> #[trigger] rows@.at(0, j) == uniform,
        fitted(x, data, BoundaryCondition::Individual(rows), by_row.a@, by_row.b@),
        fitted(x, data, uniform_condition(uniform), as_whole.a@, as_whole.b@),
        by_row.extrapolate == as_whole.extrapolate,
    ensures
        by_row.values(x, data, query) == as_whole.values(x, data, query),
{
    lemma_uniform_rows(x, data, rows, uniform, by_row.a@, by_row.b@);
    lemma_fitted_once(
        x,
        data,
        uniform_condition(uniform),
        by_row.a@,
        by_row.b@,
        as_whole.a@,
        as_whole.b@,
    );
    assert(by_row.values(x, data, query) =~= as_whole.values(x, data, query));
}

/// Under a first derivative given on the left, the slope at the first
/// coordinate is that derivative less 0 times the next slope, over 1: the
/// derivative itself where multiplying by 0 gives 0 and subtracting 0 and
/// dividing by 1 change nothing.
pub proof fn lemma_first_derivative_left<T: SplineNum>(
    x: Seq<T>,
    y: Seq<T>,
    derivative: T,
    right: SingleBoundary<T>,
)
    requires
        x.len() >= 3,
    ensures
        ({
            let k = slopes(
                x,
                y,
                InternalBoundary::Mixed { left: SingleBoundary::FirstDeriv(derivative), right },
            );
            k[0] == derivative.minus_spec(num::zero::<T>().times_spec(k[1])).over_spec(
                num::one::<T>(),
            )
        }),
{
    let left = SingleBoundary::FirstDeriv(derivative);
    let bands = mixed_bands(x, left, right.specialized());
    let rhs = mixed_rhs(x, y, left, right.specialized());
    let k = bands.solve(rhs);
    assert(k[0] == bands.unknown(rhs, 0));
    assert(k[1] == bands.unknown(rhs, 1));
    assert(bands.pivot(0) == bands.mid[0]);
    assert(bands.reduced(rhs, 0) == rhs[0]);
}

/// Under a first derivative given on the right, the slope at the last
/// coordinate follows from the last equation, from which elimination has
/// taken 0 over the pivot before it times the equation before it: the
/// derivative itself where 0 over a pivot is 0, multiplying by 0 gives 0,
/// and subtracting 0 and dividing by 1 change nothing.
pub proof fn lemma_first_derivative_right<T: SplineNum>(
    x: Seq<T>,
    y: Seq<T>,
    left: SingleBoundary<T>,
    derivative: T,
)
    requires
        x.len() >= 3,
    ensures
        ({
            let n = x.len() as int;
            let right = SingleBoundary::FirstDeriv(derivative);
            let k = slopes(x, y, InternalBoundary::Mixed { left, right });
            let bands = mixed_bands(x, left.specialized(), right);
            let rhs = mixed_rhs(x, y, left.specialized(), right);
            let factor = num::zero::<T>().over_spec(bands.pivot(n - 2));
            k[n - 1] == derivative.minus_spec(
                factor.times_spec(bands.reduced(rhs, n - 2)),
            ).over_spec(num::one::<T>().minus_spec(factor.times_spec(bands.up[n - 2])))
        }),
{
    let n = x.len() as int;
    let right = SingleBoundary::FirstDeriv(derivative);
    let bands = mixed_bands(x, left.specialized(), right);
    let rhs = mixed_rhs(x, y, left.specialized(), right);
    let k = bands.solve(rhs);
    assert(k[n - 1] == bands.unknown(rhs, n - 1));
    assert(bands.factor(n - 1) == bands.low[n - 1].over_spec(bands.pivot(n - 2)));
    assert(bands.pivot(n - 1) == bands.mid[n - 1].minus_spec(
        bands.factor(n - 1).times_spec(bands.up[n - 2]),
    ));
    assert(bands.reduced(rhs, n - 1) == rhs[n - 1].minus_spec(
        bands.factor(n - 1).times_spec(bands.reduced(rhs, n - 2)),
    ));
}

} // verus!
