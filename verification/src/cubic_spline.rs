//! The cubic-spline strategy: fitting the coefficients of every segment and
//! evaluating the fitted curve.
//!
//! On the segment between the coordinates `x[i]` and `x[i+1]`, with
//! `t = (x - x[i]) / (x[i+1] - x[i])`, the curve is
//! `(1 - t) * y[i] + t * y[i+1] + t * (1 - t) * (a[i] * (1 - t) + b[i] * t)`.
//! The coefficients follow from the slopes `k` of the curve at the
//! coordinates: `a[i] = k[i] * dx(i) - (y[i+1] - y[i])` and
//! `b[i] = (y[i+1] - y[i]) - k[i+1] * dx(i)`. The slopes solve a linear
//! system that the boundary condition completes.
use vstd::prelude::*;
use crate::array::{lemma_width_of_update, NdArray, NdSpec};
use crate::axis::{in_range, index_left_of, is_in_range, segment};
use crate::boundary::{BoundaryCondition, Extrapolate, InternalBoundary, RowBoundary, SingleBoundary};
use crate::error::{BuilderError, InterpolateError};
use crate::num;
use crate::num::SplineNum;
use crate::strategies::{Strategy, StrategyBuilder};
use crate::periodic::{
    check_ends,
    ends_meet,
    periodic3_slopes,
    periodic_slopes,
    solve_periodic,
    solve_periodic3,
};
use crate::system::{
    dx,
    mixed_bands,
    mixed_rhs,
    parabola_bands,
    parabola_rhs,
    solve_mixed,
    solve_parabola,
    spacing,
};
use crate::text::{
    open_ends_message,
    open_ends_text,
    out_of_range_message,
    out_of_range_text,
    too_few_message,
    too_few_text,
    wrong_shape_message,
    wrong_shape_text,
};

verus! {

/// The slopes of the spline through the samples `y` at the coordinates `x`
/// under the condition `boundary`. Specialized, a condition is `Mixed` or
/// `Periodic`. Three samples with not-a-knot at both ends lie on one
/// parabola, whose slopes are taken.
pub open spec fn slopes<T: SplineNum>(x: Seq<T>, y: Seq<T>, boundary: InternalBoundary<T>) -> Seq<T> {
    match boundary.specialized() {
        InternalBoundary::Mixed { left, right } => {
            if x.len() == 3 && left is NotAKnot && right is NotAKnot {
                parabola_bands(x).solve(parabola_rhs(x, y))
            } else {
                mixed_bands(x, left.specialized(), right.specialized()).solve(
                    mixed_rhs(x, y, left.specialized(), right.specialized()),
                )
            }
        },
        _ => {
            if x.len() == 3 {
                periodic3_slopes(x, y)
            } else {
                periodic_slopes(x, y)
            }
        },
    }
}

/// The condition that the condition on the data set puts on the row of data
/// at flat position `j`.
pub open spec fn row_condition<T: SplineNum>(
    boundary: BoundaryCondition<T>,
    j: int,
) -> InternalBoundary<T> {
    match boundary {
        BoundaryCondition::NotAKnot => InternalBoundary::NotAKnot,
        BoundaryCondition::Natural => InternalBoundary::Natural,
        BoundaryCondition::Clamped => InternalBoundary::Clamped,
        BoundaryCondition::Periodic => InternalBoundary::Periodic,
        BoundaryCondition::Individual(rows) => InternalBoundary::of_row(rows@.at(0, j)),
    }
}

/// Whether a per-row condition has the shape that the data asks for: that of
/// the data with the leading axis collapsed to length 1.
pub open spec fn shape_fits<T: SplineNum>(boundary: BoundaryCondition<T>, data: NdSpec<T>) -> bool {
    boundary matches BoundaryCondition::Individual(rows) ==> rows@.shape == data.reshaped(1)
}

/// Whether the data meets what the periodic condition asks of it.
pub open spec fn ends_fit<T: SplineNum>(boundary: BoundaryCondition<T>, data: NdSpec<T>) -> bool {
    boundary is Periodic ==> ends_meet(data)
}

/// The coefficient `a` of segment `i`, from the slopes `k`.
pub open spec fn segment_a<T: SplineNum>(x: Seq<T>, y: Seq<T>, k: Seq<T>, i: int) -> T {
    k[i].times_spec(dx(x, i)).minus_spec(y[i + 1].minus_spec(y[i]))
}

/// The coefficient `b` of segment `i`, from the slopes `k`.
pub open spec fn segment_b<T: SplineNum>(x: Seq<T>, y: Seq<T>, k: Seq<T>, i: int) -> T {
    y[i + 1].minus_spec(y[i]).minus_spec(k[i + 1].times_spec(dx(x, i)))
}

/// Whether `a` and `b` are the coefficients of the splines through the data
/// under the condition `boundary`: one pair per segment and row of data.
pub open spec fn fitted<T: SplineNum>(
    x: Seq<T>,
    data: NdSpec<T>,
    boundary: BoundaryCondition<T>,
    a: NdSpec<T>,
    b: NdSpec<T>,
) -> bool {
    &&& a.wf()
    &&& b.wf()
    &&& a.shape == data.reshaped((x.len() - 1) as usize)
    &&& b.shape == data.reshaped((x.len() - 1) as usize)
    &&& forall|i: int, j: int|
        0 <= i < x.len() - 1 && 0 <= j < data.width() ==> #[trigger] a.at(i, j) == segment_a(
            x,
            data.column(j),
            slopes(x, data.column(j), row_condition(boundary, j)),
            i,
        )
    &&& forall|i: int, j: int|
        0 <= i < x.len() - 1 && 0 <= j < data.width() ==> #[trigger] b.at(i, j) == segment_b(
            x,
            data.column(j),
            slopes(x, data.column(j), row_condition(boundary, j)),
            i,
        )
}

/// The mode of extrapolation that the flag and the condition give: a
/// periodic spline that extrapolates does so by its period.
pub open spec fn mode_of<T: SplineNum>(extrapolate: bool, boundary: BoundaryCondition<T>) -> Extrapolate {
    if !extrapolate {
        Extrapolate::No
    } else if boundary is Periodic {
        Extrapolate::Periodic
    } else {
        Extrapolate::Yes
    }
}

/// The query one period or more away brought back between the first and the
/// last coordinate.
pub open spec fn folded<T: SplineNum>(x: Seq<T>, query: T) -> T {
    query.minus_spec(x[0]).rem_euclid_spec(x[x.len() - 1].minus_spec(x[0])).plus_spec(x[0])
}

/// The position of `query` in segment `i`, 0 at the left coordinate and 1 at
/// the right one.
pub open spec fn position<T: SplineNum>(x: Seq<T>, query: T, i: int) -> T {
    query.minus_spec(x[i]).over_spec(x[i + 1].minus_spec(x[i]))
}

/// The cubic of a segment at position `t`, from the samples at its two ends
/// and its two coefficients.
pub open spec fn cubic<T: SplineNum>(t: T, y_left: T, y_right: T, a: T, b: T) -> T {
    let rest = num::one::<T>().minus_spec(t);
    rest.times_spec(y_left).plus_spec(t.times_spec(y_right)).plus_spec(
        t.times_spec(rest).times_spec(a.times_spec(rest).plus_spec(b.times_spec(t))),
    )
}

/// The configuration of a cubic spline: whether it extrapolates, and its
/// boundary condition. [`new`](CubicSpline::new) gives a spline that does not
/// extrapolate, with the not-a-knot condition.
#[derive(Debug)]
pub struct CubicSpline<T> {
    extrapolate: bool,
    boundary: BoundaryCondition<T>,
}

/// A fitted cubic spline: the coefficients `a` and `b` of every segment, for
/// every row of data, and how a query outside the coordinates is treated.
#[derive(Debug)]
pub struct CubicSplineStrategy<T> {
    pub a: NdArray<T>,
    pub b: NdArray<T>,
    pub extrapolate: Extrapolate,
}

impl<T: SplineNum> CubicSpline<T> {
    /// Whether the spline extrapolates.
    pub closed spec fn extrapolates(&self) -> bool {
        self.extrapolate
    }

    /// The boundary condition.
    pub closed spec fn condition(&self) -> BoundaryCondition<T> {
        self.boundary
    }

    /// A per-row condition is a well-formed array.
    pub open spec fn wf(&self) -> bool {
        self.condition() matches BoundaryCondition::Individual(rows) ==> rows.wf()
    }

    /// A cubic spline that does not extrapolate, with the not-a-knot
    /// condition.
    pub fn new() -> (r: Self)
        ensures
            !r.extrapolates(),
            r.condition() is NotAKnot,
            r.wf(),
    {
        CubicSpline { extrapolate: false, boundary: BoundaryCondition::NotAKnot }
    }

    /// Sets whether the spline extrapolates.
    pub fn extrapolate(self, extrapolate: bool) -> (r: Self)
        ensures
            r.extrapolates() == extrapolate,
            r.condition() == self.condition(),
    {
        let mut r = self;
        r.extrapolate = extrapolate;
        r
    }

    /// Sets the boundary condition.
    pub fn boundary(self, boundary: BoundaryCondition<T>) -> (r: Self)
        ensures
            r.extrapolates() == self.extrapolates(),
            r.condition() == boundary,
    {
        let mut r = self;
        r.boundary = boundary;
        r
    }

    /// The slopes of every row of data under one condition for all rows.
    ///
    /// The periodic condition asks every row to end on the value on which it
    /// starts; where one does not, nothing is solved.
    pub fn solve_for_k(x: &Vec<T>, data: &NdArray<T>, boundary: InternalBoundary<T>) -> (r: Result<
        NdArray<T>,
        BuilderError,
    >)
        requires
            data.wf(),
            x.len() == data@.rows(),
            x.len() >= 3,
        ensures
            r is Ok <==> (boundary is Periodic ==> ends_meet(data@)),
            r matches Ok(k) ==> {
                &&& k.wf()
                &&& k@.shape == data@.shape
                &&& forall|j: int|
                    0 <= j < data@.width() ==> #[trigger] k@.column(j) == slopes(
                        x@,
                        data@.column(j),
                        boundary,
                    )
            },
            r matches Err(e) ==> e.is_value_error(open_ends_text(data@)),
    {
        match boundary.specialize() {
            InternalBoundary::Mixed { left, right } => {
                if x.len() == 3 && matches!(left, SingleBoundary::NotAKnot) && matches!(
                    right,
                    SingleBoundary::NotAKnot
                ) {
                    Ok(solve_parabola(x, data))
                } else {
                    Ok(solve_mixed(x, data, left, right))
                }
            },
            _ => {
                if !check_ends(data) {
                    return Err(BuilderError::ValueError(open_ends_message(data)));
                }
                if x.len() == 3 {
                    Ok(solve_periodic3(x, data))
                } else {
                    Ok(solve_periodic(x, data))
                }
            },
        }
    }

    /// The slopes of every row of data under a condition of its own: row by
    /// row, the slopes are written to `k`.
    pub fn solve_for_k_individual(
        k: &mut NdArray<T>,
        x: &Vec<T>,
        data: &NdArray<T>,
        boundary: &NdArray<RowBoundary<T>>,
    ) -> (r: Result<(), BuilderError>)
        requires
            data.wf(),
            x.len() == data@.rows(),
            x.len() >= 3,
            old(k).wf(),
            old(k)@.shape == data@.shape,
            boundary.wf(),
            boundary@.shape == data@.reshaped(1),
        ensures
            r is Ok,
            final(k).wf(),
            final(k)@.shape == data@.shape,
            forall|j: int|
                0 <= j < data@.width() ==> #[trigger] final(k)@.column(j) == slopes(
                    x@,
                    data@.column(j),
                    InternalBoundary::of_row(boundary@.at(0, j)),
                ),
    {
        let width = data.width();
        proof {
            lemma_width_of_update(data@.shape, 1);
        }
        let mut j: usize = 0;
        while j < width
            invariant
                j <= width,
                width == data@.width(),
                data.wf(),
                x.len() == data@.rows(),
                x.len() >= 3,
                k.wf(),
                k@.shape == data@.shape,
                boundary.wf(),
                boundary@.rows() == 1,
                boundary@.width() == width,
                forall|c: int|
                    0 <= c < j ==> #[trigger] k@.column(c) == slopes(
                        x@,
                        data@.column(c),
                        InternalBoundary::of_row(boundary@.at(0, c)),
                    ),
            decreases width - j,
        {
            let row = data.column(j);
            let condition = InternalBoundary::from(boundary.get(0, j));
            match Self::solve_for_k(x, &row, condition) {
                Ok(slopes) => {
                    k.set_column(j, &slopes);
                },
                Err(e) => {
                    return Err(e);
                },
            }
            j += 1;
        }
        Ok(())
    }

    /// The coefficients `a` and `b` of every segment and row of data.
    pub fn calc_coefficients(&self, x: &Vec<T>, data: &NdArray<T>) -> (r: Result<
        (NdArray<T>, NdArray<T>),
        BuilderError,
    >)
        requires
            self.wf(),
            data.wf(),
            x.len() == data@.rows(),
            x.len() >= 3,
        ensures
            r is Ok <==> shape_fits(self.condition(), data@) && ends_fit(self.condition(), data@),
            r matches Ok(c) ==> c.0.wf() && c.1.wf() && fitted(
                x@,
                data@,
                self.condition(),
                c.0@,
                c.1@,
            ),
            r matches Err(e) ==> match self.condition() {
                BoundaryCondition::Individual(rows) => e.is_shape_error(
                    wrong_shape_text(data@.reshaped(1), rows@.shape),
                ),
                _ => e.is_value_error(open_ends_text(data@)),
            },
    {
        let len = x.len();
        let width = data.width();
        let solved = match &self.boundary {
            BoundaryCondition::Periodic => Self::solve_for_k(x, data, InternalBoundary::Periodic),
            BoundaryCondition::Natural => Self::solve_for_k(x, data, InternalBoundary::Natural),
            BoundaryCondition::Clamped => Self::solve_for_k(x, data, InternalBoundary::Clamped),
            BoundaryCondition::NotAKnot => Self::solve_for_k(x, data, InternalBoundary::NotAKnot),
            BoundaryCondition::Individual(bounds) => {
                let mut bounds_shape = data.shape().clone();
                bounds_shape.set(0, 1);
                if !same_shape(&bounds_shape, bounds.shape()) {
                    return Err(
                        BuilderError::ShapeError(wrong_shape_message(&bounds_shape, bounds.shape())),
                    );
                }
                let mut k = NdArray::filled(data, len, T::from_u8(0));
                proof {
                    assert(data@.reshaped(len) =~= data@.shape);
                }
                match Self::solve_for_k_individual(&mut k, x, data, bounds) {
                    Ok(()) => Ok(k),
                    Err(e) => Err(e),
                }
            },
        };
        let k = match solved {
            Ok(k) => k,
            Err(e) => {
                return Err(e);
            },
        };
        proof {
            assert((len - 1) * width <= len * width) by (nonlinear_arith)
                requires
                    len >= 1,
                    width >= 0,
            ;
            lemma_width_of_update(data@.shape, (len - 1) as usize);
        }
        let mut c_a = NdArray::filled(data, len - 1, T::from_u8(0));
        let mut c_b = NdArray::filled(data, len - 1, T::from_u8(0));
        let mut index: usize = 0;
        while index < len - 1
            invariant
                index <= len - 1,
                len == x.len(),
                len == data@.rows(),
                len >= 3,
                width == data@.width(),
                data.wf(),
                k.wf(),
                k@.shape == data@.shape,
                forall|j: int|
                    0 <= j < width ==> #[trigger] k@.column(j) == slopes(
                        x@,
                        data@.column(j),
                        row_condition(self.condition(), j),
                    ),
                c_a.wf(),
                c_b.wf(),
                c_a@.shape == data@.reshaped((len - 1) as usize),
                c_b@.shape == data@.reshaped((len - 1) as usize),
                c_a@.width() == width,
                c_b@.width() == width,
                forall|i: int, j: int|
                    0 <= i < index && 0 <= j < width ==> #[trigger] c_a@.at(i, j) == segment_a(
                        x@,
                        data@.column(j),
                        k@.column(j),
                        i,
                    ),
                forall|i: int, j: int|
                    0 <= i < index && 0 <= j < width ==> #[trigger] c_b@.at(i, j) == segment_b(
                        x@,
                        data@.column(j),
                        k@.column(j),
                        i,
                    ),
            decreases len - index,
        {
            let step = spacing(x, index);
            let mut j: usize = 0;
            while j < width
                invariant
                    index < len - 1,
                    j <= width,
                    len == x.len(),
                    len == data@.rows(),
                    width == data@.width(),
                    data.wf(),
                    k.wf(),
                    k@.shape == data@.shape,
                    step == dx(x@, index as int),
                    c_a.wf(),
                    c_b.wf(),
                    c_a@.shape == data@.reshaped((len - 1) as usize),
                    c_b@.shape == data@.reshaped((len - 1) as usize),
                    c_a@.width() == width,
                    c_b@.width() == width,
                    forall|i: int, c: int|
                        0 <= i < index && 0 <= c < width ==> #[trigger] c_a@.at(i, c) == segment_a(
                            x@,
                            data@.column(c),
                            k@.column(c),
                            i,
                        ),
                    forall|i: int, c: int|
                        0 <= i < index && 0 <= c < width ==> #[trigger] c_b@.at(i, c) == segment_b(
                            x@,
                            data@.column(c),
                            k@.column(c),
                            i,
                        ),
                    forall|c: int|
                        0 <= c < j ==> #[trigger] c_a@.at(index as int, c) == segment_a(
                            x@,
                            data@.column(c),
                            k@.column(c),
                            index as int,
                        ),
                    forall|c: int|
                        0 <= c < j ==> #[trigger] c_b@.at(index as int, c) == segment_b(
                            x@,
                            data@.column(c),
                            k@.column(c),
                            index as int,
                        ),
                decreases width - j,
            {
                let k_left = k.get(index, j);
                let k_right = k.get(index + 1, j);
                let y = data.get(index, j);
                let y_right = data.get(index + 1, j);
                proof {
                    assert(k@.column(j as int)[index as int] == k@.at(index as int, j as int));
                    assert(k@.column(j as int)[index + 1] == k@.at(index + 1, j as int));
                }
                c_a.set(index, j, k_left.times(step).minus(y_right.minus(y)));
                c_b.set(index, j, y_right.minus(y).minus(k_right.times(step)));
                j += 1;
            }
            index += 1;
        }
        Ok((c_a, c_b))
    }
}

impl<T: SplineNum> Default for CubicSpline<T> {
    fn default() -> (r: Self)
        ensures
            !r.extrapolates(),
            r.condition() is NotAKnot,
            r.wf(),
    {
        CubicSpline::new()
    }
}

impl<T: SplineNum> CubicSplineStrategy<T> {
    /// Whether the spline answers `query`: always where it extrapolates, and
    /// else where the query lies between the first and the last coordinate.
    pub open spec fn accepts(&self, x: Seq<T>, query: T) -> bool {
        !(self.extrapolate is No) || in_range(x, query)
    }

    /// The query that is evaluated in place of `query`: a periodic spline
    /// folds a query outside the coordinates back between them.
    pub open spec fn effective_query(&self, x: Seq<T>, query: T) -> T {
        if self.extrapolate is Periodic && !in_range(x, query) {
            folded(x, query)
        } else {
            query
        }
    }

    /// The value of the spline of the row of data at flat position `j`.
    pub open spec fn value(&self, x: Seq<T>, data: NdSpec<T>, query: T, j: int) -> T {
        let at = self.effective_query(x, query);
        let i = segment(x, at);
        cubic(
            position(x, at, i),
            data.at(i, j),
            data.at(i + 1, j),
            self.a@.at(i, j),
            self.b@.at(i, j),
        )
    }

    /// The values of the splines of all rows of data.
    pub open spec fn values(&self, x: Seq<T>, data: NdSpec<T>, query: T) -> Seq<T> {
        Seq::new(data.width(), |j: int| self.value(x, data, query, j))
    }
}

impl<T: SplineNum> StrategyBuilder<T> for CubicSpline<T> {
    type FinishedStrat = CubicSplineStrategy<T>;

    open spec fn ready(&self) -> bool {
        self.wf()
    }

    open spec fn minimum_data_length_spec() -> nat {
        3
    }

    fn minimum_data_length() -> (r: usize) {
        3
    }

    /// Fits the spline. It is rejected where there are fewer than three
    /// samples, where a per-row condition has not the shape that the data
    /// asks for, and where the condition is periodic and a row of data does
    /// not end on the value on which it starts; nothing else is rejected.
    fn build(self, x: &Vec<T>, data: &NdArray<T>) -> (r: Result<CubicSplineStrategy<T>, BuilderError>)
        ensures
            r is Ok <==> x.len() >= 3 && shape_fits(self.condition(), data@) && ends_fit(
                self.condition(),
                data@,
            ),
            r matches Ok(s) ==> fitted(x@, data@, self.condition(), s.a@, s.b@) && s.extrapolate
                == mode_of(self.extrapolates(), self.condition()),
            r matches Err(e) ==> if x.len() < 3 {
                e.is_not_enough_data(too_few_text())
            } else {
                match self.condition() {
                    BoundaryCondition::Individual(rows) => e.is_shape_error(
                        wrong_shape_text(data@.reshaped(1), rows@.shape),
                    ),
                    _ => e.is_value_error(open_ends_text(data@)),
                }
            },
    {
        if x.len() < 3 {
            return Err(BuilderError::NotEnoughData(too_few_message()));
        }
        let (a, b) = match self.calc_coefficients(x, data) {
            Ok(c) => c,
            Err(e) => {
                return Err(e);
            },
        };
        let extrapolate = if !self.extrapolate {
            Extrapolate::No
        } else if matches!(self.boundary, BoundaryCondition::Periodic) {
            Extrapolate::Periodic
        } else {
            Extrapolate::Yes
        };
        Ok(CubicSplineStrategy { a, b, extrapolate })
    }
}

impl<T: SplineNum> Strategy<T> for CubicSplineStrategy<T> {
    open spec fn fits(&self, x: Seq<T>, data: NdSpec<T>) -> bool {
        &&& x.len() >= 2
        &&& self.a.wf()
        &&& self.b.wf()
        &&& self.a@.shape == data.reshaped((x.len() - 1) as usize)
        &&& self.b@.shape == data.reshaped((x.len() - 1) as usize)
    }

    /// Evaluates the spline of every row of data at `query`. A query outside
    /// the coordinates is rejected where the spline does not extrapolate,
    /// and no other query is.
    fn interp_into(&self, x: &Vec<T>, data: &NdArray<T>, target: &mut Vec<T>, query: T) -> (r: Result<
        (),
        InterpolateError,
    >)
        ensures
            r is Ok <==> self.accepts(x@, query),
            r is Ok ==> final(target)@ == self.values(x@, data@, query),
            r matches Err(e) ==> e.is_out_of_bounds(out_of_range_text(query)),
    {
        let in_range = is_in_range(x, query);
        if matches!(self.extrapolate, Extrapolate::No) && !in_range {
            return Err(InterpolateError::OutOfBounds(out_of_range_message(query)));
        }
        let mut at = query;
        if matches!(self.extrapolate, Extrapolate::Periodic) && !in_range {
            let x0 = x[0];
            let xn = x[x.len() - 1];
            at = query.minus(x0).rem_euclid(xn.minus(x0)).plus(x0);
        }
        let idx = index_left_of(x, at);
        let x_left = x[idx];
        let x_right = x[idx + 1];
        let one = T::from_u8(1);
        let t = at.minus(x_left).over(x_right.minus(x_left));
        let rest = one.minus(t);
        let width = data.width();
        proof {
            lemma_width_of_update(data@.shape, (x.len() - 1) as usize);
        }
        let mut j: usize = 0;
        while j < width
            invariant
                j <= width,
                width == data@.width(),
                target.len() == width,
                data.wf(),
                x.len() == data@.rows(),
                self.a.wf(),
                self.b.wf(),
                self.a@.rows() == x.len() - 1,
                self.b@.rows() == x.len() - 1,
                self.a@.width() == width,
                self.b@.width() == width,
                idx + 1 < x.len(),
                at == self.effective_query(x@, query),
                idx == segment(x@, at),
                t == position(x@, at, idx as int),
                rest == num::one::<T>().minus_spec(t),
                forall|c: int| 0 <= c < j ==> #[trigger] target@[c] == self.value(x@, data@, query, c),
            decreases width - j,
        {
            let y_left = data.get(idx, j);
            let y_right = data.get(idx + 1, j);
            let a_left = self.a.get(idx, j);
            let b_left = self.b.get(idx, j);
            let y = rest.times(y_left).plus(t.times(y_right)).plus(
                t.times(rest).times(a_left.times(rest).plus(b_left.times(t))),
            );
            target.set(j, y);
            j += 1;
        }
        proof {
            assert(target@ =~= self.values(x@, data@, query));
        }
        Ok(())
    }
}

/// Tells whether two shapes are the same.
fn same_shape(a: &Vec<usize>, b: &Vec<usize>) -> (r: bool)
    ensures
        r == (a@ == b@),
{
    if a.len() != b.len() {
        return false;
    }
    let mut i: usize = 0;
    while i < a.len()
        invariant
            i <= a.len(),
            a.len() == b.len(),
            forall|m: int| 0 <= m < i ==> a@[m] == b@[m],
        decreases a.len() - i,
    {
        if a[i] != b[i] {
            return false;
        }
        i += 1;
    }
    proof {
        assert(a@ =~= b@);
    }
    true
}

} // verus!
