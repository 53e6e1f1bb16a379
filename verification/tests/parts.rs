use spline_interp::array::NdArray;
use spline_interp::axis::{index_left_of, is_in_range};
use spline_interp::boundary::{
    BoundaryCondition, InternalBoundary, RowBoundary, SingleBoundary,
};
use spline_interp::error::{BuilderError, InterpolateError};
use spline_interp::num::SplineNum;
use spline_interp::periodic::{check_ends, solve_periodic, solve_periodic3};
use spline_interp::system::{
    chord_slope, inner_bands, inner_rhs_rows, left_entries, left_value, right_entries,
    right_value, solve_mixed, solve_parabola, spacing,
};
use spline_interp::text::{
    open_ends_message, out_of_range_message, render_row, render_shape, render_usize,
    too_few_message, wrong_shape_message,
};
use spline_interp::tridiagonal::thomas;

#[derive(Clone, Copy, Debug, PartialEq)]
struct F(f64);

impl SplineNum for F {
    fn from_u8_spec(n: u8) -> Self {
        Self::from_u8(n)
    }

    fn from_u8(n: u8) -> Self {
        F(num_traits::cast(n).unwrap())
    }

    fn plus_spec(self, rhs: Self) -> Self {
        self.plus(rhs)
    }

    fn plus(self, rhs: Self) -> Self {
        F(self.0 + rhs.0)
    }

    fn minus_spec(self, rhs: Self) -> Self {
        self.minus(rhs)
    }

    fn minus(self, rhs: Self) -> Self {
        F(self.0 - rhs.0)
    }

    fn times_spec(self, rhs: Self) -> Self {
        self.times(rhs)
    }

    fn times(self, rhs: Self) -> Self {
        F(self.0 * rhs.0)
    }

    fn over_spec(self, rhs: Self) -> Self {
        self.over(rhs)
    }

    fn over(self, rhs: Self) -> Self {
        F(self.0 / rhs.0)
    }

    fn negate_spec(self) -> Self {
        self.negate()
    }

    fn negate(self) -> Self {
        F(-self.0)
    }

    fn power_spec(self, exponent: Self) -> Self {
        self.power(exponent)
    }

    fn power(self, exponent: Self) -> Self {
        F(num_traits::Pow::pow(self.0, exponent.0))
    }

    fn rem_euclid_spec(self, rhs: Self) -> Self {
        self.rem_euclid(rhs)
    }

    fn rem_euclid(self, rhs: Self) -> Self {
        F(num_traits::Euclid::rem_euclid(&self.0, &rhs.0))
    }

    fn at_most_spec(self, rhs: Self) -> bool {
        self.at_most(rhs)
    }

    fn at_most(self, rhs: Self) -> bool {
        self.0 <= rhs.0
    }

    fn equals_spec(self, rhs: Self) -> bool {
        self.equals(rhs)
    }

    fn equals(self, rhs: Self) -> bool {
        self.0 == rhs.0
    }

    fn describe_spec(self) -> String {
        self.describe()
    }

    fn describe(self) -> String {
        format!("{:?}", self.0)
    }
}

fn axis(values: &[f64]) -> Vec<F> {
    values.iter().map(|v| F(*v)).collect()
}

fn grid(shape: &[usize], values: &[f64]) -> NdArray<F> {
    NdArray::from_shape_vec(shape.to_vec(), axis(values)).unwrap()
}

fn column(values: &[f64]) -> NdArray<F> {
    grid(&[values.len()], values)
}

fn plain(values: &[F]) -> Vec<f64> {
    values.iter().map(|v| v.0).collect()
}

fn close(got: f64, want: f64) -> bool {
    (got - want).abs() <= 1e-12 * (1.0 + want.abs())
}

fn all_close(got: &[f64], want: &[f64]) -> bool {
    got.len() == want.len() && got.iter().zip(want).all(|(g, w)| close(*g, *w))
}

#[test]
fn an_array_is_its_shape_and_its_elements() {
    let a = grid(&[2, 3], &[1.0, 2.0, 3.0, 4.0, 5.0, 6.0]);
    assert_eq!(a.shape(), &vec![2, 3]);
    assert_eq!(a.rows(), 2);
    assert_eq!(a.width(), 3);
    assert_eq!(a.values(), &axis(&[1.0, 2.0, 3.0, 4.0, 5.0, 6.0]));
    assert_eq!(a.get(0, 0), F(1.0));
    assert_eq!(a.get(0, 2), F(3.0));
    assert_eq!(a.get(1, 0), F(4.0));
    assert_eq!(a.get(1, 2), F(6.0));
    let b = grid(&[2, 3, 2], &[0.0; 12]);
    assert_eq!(b.rows(), 2);
    assert_eq!(b.width(), 6);
    let c = column(&[1.0, 2.0, 3.0]);
    assert_eq!(c.rows(), 3);
    assert_eq!(c.width(), 1);
    assert_eq!(c.get(2, 0), F(3.0));
}

#[test]
fn an_array_needs_elements_that_fill_its_shape() {
    assert!(NdArray::from_shape_vec(vec![2, 3], axis(&[0.0; 6])).is_some());
    assert!(NdArray::from_shape_vec(vec![2, 3], axis(&[0.0; 5])).is_none());
    assert!(NdArray::from_shape_vec(vec![2, 3], axis(&[0.0; 7])).is_none());
    assert!(NdArray::from_shape_vec(vec![], axis(&[0.0])).is_none());
    assert!(NdArray::from_shape_vec(vec![], axis(&[])).is_none());
    assert!(NdArray::from_shape_vec(vec![0], axis(&[])).is_some());
    assert!(NdArray::from_shape_vec(vec![0, 5], axis(&[])).is_some());
    assert!(NdArray::from_shape_vec(vec![4, 0], axis(&[])).is_some());
    assert!(NdArray::from_shape_vec(vec![4, 0], axis(&[1.0])).is_none());
    // A width beyond the largest index is refused even without elements ...
    assert!(NdArray::from_shape_vec(vec![0, usize::MAX, 2], axis(&[])).is_none());
    // ... unless an empty axis makes it 0.
    let empty = NdArray::from_shape_vec(vec![3, usize::MAX, 2, 0], axis(&[])).unwrap();
    assert_eq!(empty.width(), 0);
    assert!(NdArray::from_shape_vec(vec![usize::MAX, 2], axis(&[0.0; 4])).is_none());
}

#[test]
fn one_element_is_overwritten() {
    let mut a = grid(&[2, 3], &[1.0, 2.0, 3.0, 4.0, 5.0, 6.0]);
    a.set(1, 1, F(-5.0));
    assert_eq!(a.values(), &axis(&[1.0, 2.0, 3.0, 4.0, -5.0, 6.0]));
    a.set(0, 2, F(9.0));
    assert_eq!(a.values(), &axis(&[1.0, 2.0, 9.0, 4.0, -5.0, 6.0]));
    assert_eq!(a.shape(), &vec![2, 3]);
}

#[test]
fn rows_of_data_run_along_the_leading_axis() {
    let mut a = grid(&[3, 2], &[1.0, 2.0, 3.0, 4.0, 5.0, 6.0]);
    let second = a.column(1);
    assert_eq!(second.shape(), &vec![3]);
    assert_eq!(second.values(), &axis(&[2.0, 4.0, 6.0]));
    assert_eq!(a.column(0).values(), &axis(&[1.0, 3.0, 5.0]));
    a.set_column(0, &column(&[-1.0, -3.0, -5.0]));
    assert_eq!(a.values(), &axis(&[-1.0, 2.0, -3.0, 4.0, -5.0, 6.0]));
    let b = grid(&[2, 2, 2], &[1.0, 2.0, 3.0, 4.0, 5.0, 6.0, 7.0, 8.0]);
    assert_eq!(b.column(2).values(), &axis(&[3.0, 7.0]));
}

#[test]
fn a_filled_array_takes_the_axes_behind_the_first() {
    let template = grid(&[2, 3, 2], &[0.0; 12]);
    let filled = NdArray::filled(&template, 4, F(1.5));
    assert_eq!(filled.shape(), &vec![4, 3, 2]);
    assert_eq!(filled.values(), &axis(&[1.5; 24]));
    let none = NdArray::filled(&template, 0, F(1.5));
    assert_eq!(none.shape(), &vec![0, 3, 2]);
    assert!(none.values().is_empty());
    let other: NdArray<usize> = NdArray::filled(&column(&[1.0, 2.0]), 3, 7);
    assert_eq!(other.values(), &vec![7, 7, 7]);
}

#[test]
fn natural_and_clamped_are_derivatives_of_zero() {
    assert_eq!(SingleBoundary::<F>::Natural.specialize(), SingleBoundary::SecondDeriv(F(0.0)));
    assert_eq!(SingleBoundary::<F>::Clamped.specialize(), SingleBoundary::FirstDeriv(F(0.0)));
    assert_eq!(SingleBoundary::<F>::NotAKnot.specialize(), SingleBoundary::NotAKnot);
    assert_eq!(
        SingleBoundary::FirstDeriv(F(2.5)).specialize(),
        SingleBoundary::FirstDeriv(F(2.5))
    );
    assert_eq!(
        SingleBoundary::SecondDeriv(F(-1.0)).specialize(),
        SingleBoundary::SecondDeriv(F(-1.0))
    );
}

#[test]
fn uniform_conditions_become_the_same_condition_at_both_ends() {
    assert_eq!(
        InternalBoundary::<F>::Natural.specialize(),
        InternalBoundary::Mixed { left: SingleBoundary::Natural, right: SingleBoundary::Natural }
    );
    assert_eq!(
        InternalBoundary::<F>::NotAKnot.specialize(),
        InternalBoundary::Mixed { left: SingleBoundary::NotAKnot, right: SingleBoundary::NotAKnot }
    );
    assert_eq!(
        InternalBoundary::<F>::Clamped.specialize(),
        InternalBoundary::Mixed { left: SingleBoundary::Clamped, right: SingleBoundary::Clamped }
    );
    assert_eq!(InternalBoundary::<F>::Periodic.specialize(), InternalBoundary::Periodic);
    let mixed = InternalBoundary::Mixed {
        left: SingleBoundary::Natural,
        right: SingleBoundary::FirstDeriv(F(1.0)),
    };
    assert_eq!(mixed.specialize(), mixed);
}

#[test]
fn a_row_condition_keeps_its_meaning() {
    assert_eq!(InternalBoundary::<F>::from(RowBoundary::NotAKnot), InternalBoundary::NotAKnot);
    assert_eq!(InternalBoundary::<F>::from(RowBoundary::Natural), InternalBoundary::Natural);
    assert_eq!(InternalBoundary::<F>::from(RowBoundary::Clamped), InternalBoundary::Clamped);
    let left = SingleBoundary::SecondDeriv(F(2.0));
    let right = SingleBoundary::Clamped;
    assert_eq!(
        InternalBoundary::from(RowBoundary::Mixed { left, right }),
        InternalBoundary::Mixed { left, right }
    );
}

#[test]
fn every_level_defaults_to_not_a_knot() {
    assert_eq!(BoundaryCondition::<F>::default(), BoundaryCondition::NotAKnot);
    assert_eq!(RowBoundary::<F>::default(), RowBoundary::NotAKnot);
    assert_eq!(SingleBoundary::<F>::default(), SingleBoundary::NotAKnot);
}

#[test]
fn errors_carry_their_message() {
    let text = String::from("why");
    for err in [
        BuilderError::NotEnoughData(text.clone()),
        BuilderError::Monotonic(text.clone()),
        BuilderError::AxisLenght(text.clone()),
        BuilderError::DimensionError(text.clone()),
        BuilderError::ShapeError(text.clone()),
        BuilderError::ValueError(text.clone()),
    ] {
        assert_eq!(err.message(), "why");
    }
    assert_eq!(InterpolateError::OutOfBounds(text).message(), "why");
}

#[test]
fn elimination_solves_a_system() {
    // 4a + 2b = 8, 2a + 5b + c = 15, 4b + 3c = 17 has the solution 1, 2, 3.
    let up = axis(&[2.0, 1.0, 0.0]);
    let mid = axis(&[4.0, 5.0, 3.0]);
    let low = axis(&[0.0, 2.0, 4.0]);
    let k = thomas(&up, &mid, &low, column(&[8.0, 15.0, 17.0]));
    assert_eq!(k.values(), &axis(&[1.0, 2.0, 3.0]));
    assert_eq!(k.shape(), &vec![3]);
    // The entries outside the matrix take no part.
    let up = axis(&[2.0, 1.0, 99.0]);
    let low = axis(&[-99.0, 2.0, 4.0]);
    let k = thomas(&up, &mid, &low, column(&[8.0, 15.0, 17.0]));
    assert_eq!(k.values(), &axis(&[1.0, 2.0, 3.0]));
}

#[test]
fn elimination_solves_for_every_row_of_data() {
    let up = axis(&[2.0, 1.0, 0.0]);
    let mid = axis(&[4.0, 5.0, 3.0]);
    let low = axis(&[0.0, 2.0, 4.0]);
    // The right-hand sides of the solutions (1, 2, 3), (2, 4, 6) and (0, 0, 0).
    let rhs = grid(&[3, 3], &[8.0, 16.0, 0.0, 15.0, 30.0, 0.0, 17.0, 34.0, 0.0]);
    let k = thomas(&up, &mid, &low, rhs);
    assert_eq!(k.shape(), &vec![3, 3]);
    assert_eq!(k.values(), &axis(&[1.0, 2.0, 0.0, 2.0, 4.0, 0.0, 3.0, 6.0, 0.0]));
    let none = thomas(&up, &mid, &low, grid(&[3, 0], &[]));
    assert_eq!(none.shape(), &vec![3, 0]);
}

#[test]
fn elimination_of_one_or_two_equations() {
    let k = thomas(&axis(&[0.0]), &axis(&[4.0]), &axis(&[0.0]), column(&[10.0]));
    assert_eq!(k.values(), &axis(&[2.5]));
    // 2a + b = 4, a + 3b = 7 has the solution 1, 2.
    let k = thomas(&axis(&[1.0, 0.0]), &axis(&[2.0, 3.0]), &axis(&[0.0, 1.0]), column(&[4.0, 7.0]));
    assert_eq!(k.values(), &axis(&[1.0, 2.0]));
}

#[test]
fn the_inner_equations_weigh_the_neighbouring_segments() {
    let x = axis(&[0.0, 1.0, 3.0, 4.0, 7.0]);
    assert_eq!(spacing(&x, 0), F(1.0));
    assert_eq!(spacing(&x, 3), F(3.0));
    let (up, mid, low) = inner_bands(&x);
    assert_eq!(up, axis(&[0.0, 1.0, 2.0, 1.0, 0.0]));
    assert_eq!(mid, axis(&[0.0, 6.0, 6.0, 8.0, 0.0]));
    assert_eq!(low, axis(&[0.0, 2.0, 1.0, 3.0, 0.0]));
    let data = column(&[1.0, 3.0, 2.0, 5.0, 4.0]);
    assert_eq!(chord_slope(&x, &data, 1, 0), F(-0.5));
    let rhs = inner_rhs_rows(&x, &data, 5);
    // 3 (2 * 2 / 1 + 1 * -1 / 2), 3 (1 * -1 / 2 + 2 * 3 / 1), 3 (3 * 3 / 1 + 1 * -1 / 3)
    assert!(all_close(&plain(rhs.values()), &[0.0, 10.5, 16.5, 26.0, 0.0]));
    let fewer = inner_rhs_rows(&x, &data, 3);
    assert_eq!(fewer.shape(), &vec![3]);
    assert!(all_close(&plain(fewer.values()), &[0.0, 10.5, 16.5]));
}

#[test]
fn the_end_equations_follow_the_condition() {
    let x = axis(&[0.0, 1.0, 3.0, 4.0, 7.0]);
    let data = column(&[1.0, 3.0, 2.0, 5.0, 4.0]);
    let first = SingleBoundary::FirstDeriv(F(0.5));
    assert_eq!(left_entries(&x, first), (F(1.0), F(0.0)));
    assert_eq!(right_entries(&x, first), (F(1.0), F(0.0)));
    assert_eq!(left_value(&x, &data, first, 0), F(0.5));
    assert_eq!(right_value(&x, &data, first, 0), F(0.5));
    let second = SingleBoundary::SecondDeriv(F(4.0));
    assert_eq!(left_entries(&x, second), (F(2.0), F(1.0)));
    assert_eq!(right_entries(&x, second), (F(6.0), F(3.0)));
    // 3 (3 - 1) - 4 * 1^2 / 2 and 3 (4 - 5) + 4 * 3^2 / 2
    assert_eq!(left_value(&x, &data, second, 0), F(4.0));
    assert_eq!(right_value(&x, &data, second, 0), F(15.0));
    let knot = SingleBoundary::NotAKnot;
    assert_eq!(left_entries(&x, knot), (F(2.0), F(3.0)));
    assert_eq!(right_entries(&x, knot), (F(1.0), F(4.0)));
    // ((1 + 2 * 3) * 2 * 2 / 1 + 1^2 * -1 / 2) / 3
    assert!(close(left_value(&x, &data, knot, 0).0, 27.5 / 3.0));
    // (3^2 * 3 / 1 + (2 * 4 + 3) * 1 * -1 / 3) / 4
    assert!(close(right_value(&x, &data, knot, 0).0, (27.0 - 11.0 / 3.0) / 4.0));
}

#[test]
fn mixed_and_parabola_solvers_agree_with_the_fit() {
    let x = axis(&[-1.0, 0.0, 3.0]);
    let data = column(&[0.5, 0.0, 3.0]);
    let k = solve_parabola(&x, &data);
    assert!(all_close(&plain(k.values()), &[-0.875, -0.125, 2.125]));
    let k = solve_mixed(&x, &data, SingleBoundary::Clamped, SingleBoundary::FirstDeriv(F(1.0)));
    let k = plain(k.values());
    assert_eq!(k[0], 0.0);
    assert_eq!(k[2], 1.0);
    // 3 k0 + 8 k1 + k2 = 3 (3 * -1/2 / 1 + 1 * 3 / 3) = -1.5
    assert!(close(k[1], -2.5 / 8.0), "{k:?}");
}

#[test]
fn periodic_solvers_close_the_curve() {
    let x = axis(&[0.0, 1.0, 3.0, 4.0]);
    let data = column(&[1.0, 3.0, 2.0, 1.0]);
    assert!(check_ends(&data));
    let k = plain(solve_periodic(&x, &data).values());
    assert!(all_close(&k, &[0.75, 1.8, -1.8, 0.75]), "{k:?}");
    assert_eq!(k[0], k[3]);
    let k = solve_periodic3(&axis(&[0.0, 1.0, 3.0]), &column(&[1.0, 3.0, 1.0]));
    assert_eq!(k.values(), &axis(&[1.0, 1.0, 1.0]));
    assert!(!check_ends(&column(&[1.0, 3.0, 2.0, 1.5])));
    assert!(!check_ends(&grid(&[2, 2], &[1.0, 2.0, 1.0, 3.0])));
    assert!(check_ends(&grid(&[2, 2], &[1.0, 2.0, 1.0, 2.0])));
    assert!(check_ends(&column(&[0.0, 1.0, -0.0])));
    assert!(check_ends(&grid(&[2, 0], &[])));
}

#[test]
fn a_query_is_in_range_between_the_ends() {
    let x = axis(&[0.0, 1.0, 3.0, 4.0, 7.0]);
    assert!(is_in_range(&x, F(0.0)));
    assert!(is_in_range(&x, F(7.0)));
    assert!(is_in_range(&x, F(3.5)));
    assert!(!is_in_range(&x, F(-0.1)));
    assert!(!is_in_range(&x, F(7.1)));
    assert!(!is_in_range(&x, F(f64::NAN)));
    assert!(is_in_range(&axis(&[2.0]), F(2.0)));
}

#[test]
fn the_segment_of_a_query_holds_it() {
    let x = axis(&[0.0, 1.0, 3.0, 4.0, 7.0]);
    for (query, segment) in [
        (0.0, 0),
        (0.5, 0),
        (1.0, 1),
        (2.9, 1),
        (3.0, 2),
        (3.5, 2),
        (4.0, 3),
        (6.9, 3),
        (7.0, 3),
        (7.5, 3),
        (f64::INFINITY, 3),
        (-0.5, 0),
        (f64::NEG_INFINITY, 0),
        (f64::NAN, 0),
    ] {
        assert_eq!(index_left_of(&x, F(query)), segment, "for {query}");
    }
    assert_eq!(index_left_of(&axis(&[0.0, 1.0]), F(0.25)), 0);
    assert_eq!(index_left_of(&axis(&[0.0, 1.0]), F(5.0)), 0);
    let long: Vec<f64> = (0..100).map(f64::from).collect();
    for i in 0..99 {
        assert_eq!(index_left_of(&axis(&long), F(f64::from(i) + 0.5)), i as usize);
    }
}

#[test]
fn numbers_and_shapes_are_written_in_decimal() {
    assert_eq!(render_usize(0), "0");
    assert_eq!(render_usize(7), "7");
    assert_eq!(render_usize(10), "10");
    assert_eq!(render_usize(12045), "12045");
    assert_eq!(render_usize(usize::MAX), usize::MAX.to_string());
    assert_eq!(render_shape(&vec![]), "[]");
    assert_eq!(render_shape(&vec![3]), "[3]");
    assert_eq!(render_shape(&vec![1, 20, 3]), "[1, 20, 3]");
    assert_eq!(render_shape(&vec![1, 20, 3]), format!("{:?}", vec![1, 20, 3]));
}

#[test]
fn messages_name_the_offending_values() {
    let data = grid(&[2, 3], &[1.0, 2.5, -3.0, 4.0, 5.0, 6.0]);
    assert_eq!(render_row(&data, 0), "[1.0, 2.5, -3.0]");
    assert_eq!(render_row(&data, 1), "[4.0, 5.0, 6.0]");
    assert_eq!(render_row(&grid(&[1, 0], &[]), 0), "[]");
    assert_eq!(
        wrong_shape_message(&vec![1, 2], &vec![2, 2]),
        "Boundary conditions array has wrong shape. Expected: [1, 2], got: [2, 2]"
    );
    assert_eq!(
        open_ends_message(&data),
        "for periodic boundary condition the first and last value must be equal. \
         First: [1.0, 2.5, -3.0], last: [4.0, 5.0, 6.0]"
    );
    assert_eq!(
        open_ends_message(&column(&[1.0, 2.0, 3.5])),
        "for periodic boundary condition the first and last value must be equal. \
         First: 1.0, last: 3.5"
    );
    assert_eq!(out_of_range_message(F(-2.5)), "x = -2.5 is not in range");
    assert_eq!(
        too_few_message(),
        "The chosen Interpolation strategy needs at least 3 data points"
    );
}
