use spline_interp::array::NdArray;
use spline_interp::boundary::{
    BoundaryCondition, Extrapolate, InternalBoundary, RowBoundary, SingleBoundary,
};
use spline_interp::cubic_spline::{CubicSpline, CubicSplineStrategy};
use spline_interp::error::{BuilderError, InterpolateError};
use spline_interp::num::SplineNum;
use spline_interp::strategies::{Strategy, StrategyBuilder};

#[derive(Clone, Copy, Debug, PartialEq)]
struct F(f64);

impl SplineNum for F {
    fn from_u8_spec(n: u8) -> Self {
        Self::from_u8(n)
    }

    fn from_u8(n: u8) -> Self {
        F(num_traits::cast(n).unwrap())
    }

    fn plus_spec(self, rhs: Self) -> Self {
        self.plus(rhs)
    }

    fn plus(self, rhs: Self) -> Self {
        F(self.0 + rhs.0)
    }

    fn minus_spec(self, rhs: Self) -> Self {
        self.minus(rhs)
    }

    fn minus(self, rhs: Self) -> Self {
        F(self.0 - rhs.0)
    }

    fn times_spec(self, rhs: Self) -> Self {
        self.times(rhs)
    }

    fn times(self, rhs: Self) -> Self {
        F(self.0 * rhs.0)
    }

    fn over_spec(self, rhs: Self) -> Self {
        self.over(rhs)
    }

    fn over(self, rhs: Self) -> Self {
        F(self.0 / rhs.0)
    }

    fn negate_spec(self) -> Self {
        self.negate()
    }

    fn negate(self) -> Self {
        F(-self.0)
    }

    fn power_spec(self, exponent: Self) -> Self {
        self.power(exponent)
    }

    fn power(self, exponent: Self) -> Self {
        F(num_traits::Pow::pow(self.0, exponent.0))
    }

    fn rem_euclid_spec(self, rhs: Self) -> Self {
        self.rem_euclid(rhs)
    }

    fn rem_euclid(self, rhs: Self) -> Self {
        F(num_traits::Euclid::rem_euclid(&self.0, &rhs.0))
    }

    fn at_most_spec(self, rhs: Self) -> bool {
        self.at_most(rhs)
    }

    fn at_most(self, rhs: Self) -> bool {
        self.0 <= rhs.0
    }

    fn equals_spec(self, rhs: Self) -> bool {
        self.equals(rhs)
    }

    fn equals(self, rhs: Self) -> bool {
        self.0 == rhs.0
    }

    fn describe_spec(self) -> String {
        self.describe()
    }

    fn describe(self) -> String {
        format!("{:?}", self.0)
    }
}

fn axis(values: &[f64]) -> Vec<F> {
    values.iter().map(|v| F(*v)).collect()
}

fn grid(shape: &[usize], values: &[f64]) -> NdArray<F> {
    NdArray::from_shape_vec(shape.to_vec(), axis(values)).unwrap()
}

fn column(values: &[f64]) -> NdArray<F> {
    grid(&[values.len()], values)
}

fn plain(values: &[F]) -> Vec<f64> {
    values.iter().map(|v| v.0).collect()
}

fn close(got: f64, want: f64) -> bool {
    (got - want).abs() <= 1e-12 * (1.0 + want.abs())
}

fn all_close(got: &[f64], want: &[f64]) -> bool {
    got.len() == want.len() && got.iter().zip(want).all(|(g, w)| close(*g, *w))
}

const X5: [f64; 5] = [0.0, 1.0, 3.0, 4.0, 7.0];
const Y5: [f64; 5] = [1.0, 3.0, 2.0, 5.0, 4.0];

fn fit(boundary: BoundaryCondition<F>, x: &[f64], data: &NdArray<F>) -> CubicSplineStrategy<F> {
    CubicSpline::new().boundary(boundary).build(&axis(x), data).unwrap()
}

fn sides(left: SingleBoundary<F>, right: SingleBoundary<F>) -> BoundaryCondition<F> {
    let rows = NdArray::from_shape_vec(vec![1], vec![RowBoundary::Mixed { left, right }]).unwrap();
    BoundaryCondition::Individual(rows)
}

fn slopes_of(boundary: InternalBoundary<F>, x: &[f64], y: &[f64]) -> Vec<f64> {
    let k = CubicSpline::solve_for_k(&axis(x), &column(y), boundary).unwrap();
    plain(k.values())
}

fn at(spline: &CubicSplineStrategy<F>, x: &[f64], data: &NdArray<F>, query: f64) -> Vec<f64> {
    let mut target = vec![F(0.0); data.width()];
    spline.interp_into(&axis(x), data, &mut target, F(query)).unwrap();
    plain(&target)
}

fn middles(spline: &CubicSplineStrategy<F>, x: &[f64], data: &NdArray<F>) -> Vec<f64> {
    x.windows(2).map(|w| at(spline, x, data, (w[0] + w[1]) / 2.0)[0]).collect()
}

#[test]
fn three_samples_follow_the_parabola() {
    let x = [-1.0, 0.0, 3.0];
    let data = column(&[0.5, 0.0, 3.0]);
    let spline = CubicSpline::new().build(&axis(&x), &data).unwrap();
    let expect = [
        0.5,
        0.1851851851851852,
        0.01851851851851853,
        -5.551115123125783e-17,
        0.12962962962962965,
        0.40740740740740755,
        0.8333333333333331,
        1.407407407407407,
        2.1296296296296293,
        3.0,
    ];
    let queries = ndarray::Array::linspace(-1.0, 3.0, 10);
    assert_eq!(queries.len(), 10);
    for (query, want) in queries.iter().zip(expect.iter()) {
        let got = at(&spline, &x, &data, *query)[0];
        assert!((got - want).abs() <= f64::EPSILON, "at {query}: {got} is not {want}");
    }
}

#[test]
fn parabola_has_the_slopes_of_its_derivative() {
    // The parabola through (-1, 1/2), (0, 0) and (3, 3) is 3/8 x^2 - 1/8 x,
    // with the slope 3/4 x - 1/8.
    let x = [-1.0, 0.0, 3.0];
    let k = slopes_of(InternalBoundary::NotAKnot, &x, &[0.5, 0.0, 3.0]);
    assert!(all_close(&k, &[-0.875, -0.125, 2.125]), "{k:?}");
    let spline = fit(BoundaryCondition::NotAKnot, &x, &column(&[0.5, 0.0, 3.0]));
    assert!(all_close(&plain(spline.a.values()), &[-0.375, -3.375]));
    assert!(all_close(&plain(spline.b.values()), &[-0.375, -3.375]));
    assert_eq!(spline.a.shape(), &vec![2]);
    assert_eq!(spline.b.shape(), &vec![2]);
}

#[test]
fn not_a_knot_reproduces_every_sample() {
    let data = column(&Y5);
    let spline = fit(BoundaryCondition::NotAKnot, &X5, &data);
    for (x, y) in X5.iter().zip(Y5.iter()) {
        let got = at(&spline, &X5, &data, *x)[0];
        assert!(close(got, *y), "at {x}: {got} is not {y}");
    }
}

#[test]
fn every_condition_reproduces_every_sample() {
    let data = column(&[1.0, 3.0, 2.0, 5.0, 1.0]);
    for boundary in [
        BoundaryCondition::NotAKnot,
        BoundaryCondition::Natural,
        BoundaryCondition::Clamped,
        BoundaryCondition::Periodic,
        sides(SingleBoundary::FirstDeriv(F(0.5)), SingleBoundary::SecondDeriv(F(-1.5))),
    ] {
        let spline = fit(boundary, &X5, &data);
        for (x, y) in X5.iter().zip([1.0, 3.0, 2.0, 5.0, 1.0].iter()) {
            let got = at(&spline, &X5, &data, *x)[0];
            assert!(close(got, *y), "at {x}: {got} is not {y}");
        }
    }
}

#[test]
fn not_a_knot_on_an_uneven_grid() {
    let k = slopes_of(InternalBoundary::NotAKnot, &X5, &Y5);
    let want = [139.0 / 30.0, -1.0 / 30.0, 43.0 / 30.0, 119.0 / 30.0, -301.0 / 30.0];
    assert!(all_close(&k, &want), "{k:?}");
    let data = column(&Y5);
    let spline = fit(BoundaryCondition::NotAKnot, &X5, &data);
    let got = middles(&spline, &X5, &data);
    assert!(all_close(&got, &[31.0 / 12.0, 32.0 / 15.0, 191.0 / 60.0, 39.0 / 4.0]), "{got:?}");
}

#[test]
fn natural_on_an_uneven_grid() {
    let k = slopes_of(InternalBoundary::Natural, &X5, &Y5);
    let want =
        [4081.0 / 1500.0, 419.0 / 750.0, 128.0 / 75.0, 1069.0 / 375.0, -722.0 / 375.0];
    assert!(all_close(&k, &want), "{k:?}");
    let data = column(&Y5);
    let spline = fit(BoundaryCondition::Natural, &X5, &data);
    let got = middles(&spline, &X5, &data);
    assert!(all_close(&got, &[2.27025, 2.213, 3.357, 6.291]), "{got:?}");
}

#[test]
fn clamped_on_an_uneven_grid() {
    let k = slopes_of(InternalBoundary::Clamped, &X5, &Y5);
    let want = [0.0, 361.0 / 244.0, 99.0 / 61.0, 1289.0 / 488.0, 0.0];
    assert!(all_close(&k, &want), "{k:?}");
    let data = column(&Y5);
    let spline = fit(BoundaryCondition::Clamped, &X5, &data);
    let got = middles(&spline, &X5, &data);
    let want =
        [3543.0 / 1952.0, 2405.0 / 976.0, 13167.0 / 3904.0, 21435.0 / 3904.0];
    assert!(all_close(&got, &want), "{got:?}");
}

#[test]
fn derivatives_given_at_the_ends() {
    let boundary = InternalBoundary::Mixed {
        left: SingleBoundary::FirstDeriv(F(0.5)),
        right: SingleBoundary::SecondDeriv(F(-1.5)),
    };
    let k = slopes_of(boundary, &X5, &Y5);
    let want = [0.5, 4.0 / 3.0, 1.5, 37.0 / 12.0, -19.0 / 6.0];
    assert!(all_close(&k, &want), "{k:?}");
    let data = column(&Y5);
    let spline = fit(
        sides(SingleBoundary::FirstDeriv(F(0.5)), SingleBoundary::SecondDeriv(F(-1.5))),
        &X5,
        &data,
    );
    let got = middles(&spline, &X5, &data);
    assert!(all_close(&got, &[91.0 / 48.0, 59.0 / 24.0, 317.0 / 96.0, 219.0 / 32.0]), "{got:?}");
}

#[test]
fn not_a_knot_at_one_end_only() {
    let boundary = InternalBoundary::Mixed {
        left: SingleBoundary::NotAKnot,
        right: SingleBoundary::FirstDeriv(F(2.0)),
    };
    let k = slopes_of(boundary, &X5, &Y5);
    let want = [3497.0 / 708.0, -14.0 / 59.0, 362.0 / 177.0, 527.0 / 236.0, 2.0];
    assert!(all_close(&k, &want), "{k:?}");
    // The mirrored condition on the mirrored data gives the mirrored slopes.
    let mirrored_x = [-7.0, -4.0, -3.0, -1.0, 0.0];
    let mirrored_y = [4.0, 5.0, 2.0, 3.0, 1.0];
    let boundary = InternalBoundary::Mixed {
        left: SingleBoundary::FirstDeriv(F(-2.0)),
        right: SingleBoundary::NotAKnot,
    };
    let k = slopes_of(boundary, &mirrored_x, &mirrored_y);
    let want = [-2.0, -527.0 / 236.0, -362.0 / 177.0, 14.0 / 59.0, -3497.0 / 708.0];
    assert!(all_close(&k, &want), "{k:?}");
}

#[test]
fn not_a_knot_at_one_end_of_three_samples() {
    // Only with not-a-knot at both ends are three samples fitted by a
    // parabola. With the slope given on the right the curve is one cubic:
    // here x^3 through (0, 0), (1, 1) and (3, 27), with the slope 27 at 3.
    let boundary = InternalBoundary::Mixed {
        left: SingleBoundary::NotAKnot,
        right: SingleBoundary::FirstDeriv(F(27.0)),
    };
    let k = slopes_of(boundary, &[0.0, 1.0, 3.0], &[0.0, 1.0, 27.0]);
    assert!(all_close(&k, &[0.0, 3.0, 27.0]), "{k:?}");
}

#[test]
fn a_cubic_is_reproduced_on_an_uneven_grid() {
    let y: Vec<f64> = X5.iter().map(|x| x * x * x).collect();
    let want = [0.0, 3.0, 27.0, 48.0, 147.0];
    let first = InternalBoundary::Mixed {
        left: SingleBoundary::FirstDeriv(F(0.0)),
        right: SingleBoundary::FirstDeriv(F(147.0)),
    };
    let second = InternalBoundary::Mixed {
        left: SingleBoundary::SecondDeriv(F(0.0)),
        right: SingleBoundary::SecondDeriv(F(42.0)),
    };
    for boundary in [first, second, InternalBoundary::NotAKnot] {
        let k = slopes_of(boundary, &X5, &y);
        for (got, want) in k.iter().zip(want.iter()) {
            assert!((got - want).abs() < 1e-9, "{k:?}");
        }
    }
    let data = column(&y);
    let spline = fit(BoundaryCondition::NotAKnot, &X5, &data);
    for query in [0.5, 2.0, 3.25, 6.0] {
        let got = at(&spline, &X5, &data, query)[0];
        assert!((got - query * query * query).abs() < 1e-9, "at {query}: {got}");
    }
}

#[test]
fn first_derivative_is_met_at_both_ends() {
    let boundary = InternalBoundary::Mixed {
        left: SingleBoundary::FirstDeriv(F(0.5)),
        right: SingleBoundary::FirstDeriv(F(-2.25)),
    };
    let k = slopes_of(boundary, &X5, &Y5);
    assert_eq!(k[0], 0.5);
    assert_eq!(k[4], -2.25);
    let k = slopes_of(InternalBoundary::Clamped, &X5, &Y5);
    assert_eq!(k[0], 0.0);
    assert_eq!(k[4], 0.0);
}

#[test]
fn second_derivative_is_met_at_both_ends() {
    let data = column(&Y5);
    let spline = fit(
        sides(SingleBoundary::SecondDeriv(F(0.75)), SingleBoundary::SecondDeriv(F(-1.5))),
        &X5,
        &data,
    );
    let a = plain(spline.a.values());
    let b = plain(spline.b.values());
    // On a segment of length d the second derivative is 2 (b - 2a) / d^2 at
    // the left end and 2 (a - 2b) / d^2 at the right end.
    let left = 2.0 * (b[0] - 2.0 * a[0]) / 1.0;
    let right = 2.0 * (a[3] - 2.0 * b[3]) / 9.0;
    assert!(close(left, 0.75), "{left}");
    assert!(close(right, -1.5), "{right}");
    let spline = fit(BoundaryCondition::Natural, &X5, &data);
    let a = plain(spline.a.values());
    let b = plain(spline.b.values());
    assert!((2.0 * (b[0] - 2.0 * a[0])).abs() < 1e-12);
    assert!((2.0 * (a[3] - 2.0 * b[3]) / 9.0).abs() < 1e-12);
}

#[test]
fn slope_and_curvature_are_continuous() {
    let data = column(&Y5);
    let k = slopes_of(InternalBoundary::NotAKnot, &X5, &Y5);
    let spline = fit(BoundaryCondition::NotAKnot, &X5, &data);
    let a = plain(spline.a.values());
    let b = plain(spline.b.values());
    for i in 0..3 {
        let d0 = X5[i + 1] - X5[i];
        let d1 = X5[i + 2] - X5[i + 1];
        // First derivative: (dy - b) / d at the right end of a segment,
        // (dy + a) / d at the left end of the next; both are the slope there.
        let from_left = (Y5[i + 1] - Y5[i] - b[i]) / d0;
        let from_right = (Y5[i + 2] - Y5[i + 1] + a[i + 1]) / d1;
        assert!(close(from_left, k[i + 1]) && close(from_right, k[i + 1]));
        let bend_left = 2.0 * (a[i] - 2.0 * b[i]) / (d0 * d0);
        let bend_right = 2.0 * (b[i + 1] - 2.0 * a[i + 1]) / (d1 * d1);
        assert!(close(bend_left, bend_right), "{bend_left} is not {bend_right}");
    }
}

#[test]
fn not_a_knot_joins_the_outer_segments() {
    let data = column(&Y5);
    let spline = fit(BoundaryCondition::NotAKnot, &X5, &data);
    let a = plain(spline.a.values());
    let b = plain(spline.b.values());
    // On a segment of length d the third derivative is 6 (a - b) / d^3.
    let third = |i: usize| {
        let d = X5[i + 1] - X5[i];
        6.0 * (a[i] - b[i]) / (d * d * d)
    };
    assert!(close(third(0), third(1)), "{} is not {}", third(0), third(1));
    assert!(close(third(2), third(3)), "{} is not {}", third(2), third(3));
    assert!(close(third(0), 3.6));
    assert!(close(third(3), -3.6));
}

#[test]
fn natural_is_second_derivative_zero() {
    let data = column(&Y5);
    let natural = fit(BoundaryCondition::Natural, &X5, &data);
    let zero = fit(
        sides(SingleBoundary::SecondDeriv(F(0.0)), SingleBoundary::SecondDeriv(F(0.0))),
        &X5,
        &data,
    );
    assert_eq!(natural.a, zero.a);
    assert_eq!(natural.b, zero.b);
    let by_side = fit(sides(SingleBoundary::Natural, SingleBoundary::Natural), &X5, &data);
    assert_eq!(natural.a, by_side.a);
    assert_eq!(natural.b, by_side.b);
    for query in [0.0, 0.3, 2.0, 6.9, 7.0] {
        let one = at(&natural, &X5, &data, query)[0];
        let other = at(&zero, &X5, &data, query)[0];
        assert_eq!(one.to_bits(), other.to_bits());
    }
}

#[test]
fn clamped_is_first_derivative_zero() {
    let data = column(&Y5);
    let clamped = fit(BoundaryCondition::Clamped, &X5, &data);
    let zero = fit(
        sides(SingleBoundary::FirstDeriv(F(0.0)), SingleBoundary::FirstDeriv(F(0.0))),
        &X5,
        &data,
    );
    assert_eq!(clamped.a, zero.a);
    assert_eq!(clamped.b, zero.b);
}

#[test]
fn uniform_rows_are_the_condition_on_the_whole() {
    let values = [1.0, -1.0, 3.0, 0.5, 2.0, 4.0, 5.0, 0.0, 4.0, 2.0];
    let data = grid(&[5, 2], &values);
    for (row, whole) in [
        (RowBoundary::NotAKnot, BoundaryCondition::NotAKnot),
        (RowBoundary::Natural, BoundaryCondition::Natural),
        (RowBoundary::Clamped, BoundaryCondition::Clamped),
    ] {
        let rows = NdArray::from_shape_vec(vec![1, 2], vec![row, row]).unwrap();
        let by_row = fit(BoundaryCondition::Individual(rows), &X5, &data);
        let as_whole = fit(whole, &X5, &data);
        assert_eq!(by_row.a, as_whole.a);
        assert_eq!(by_row.b, as_whole.b);
        for w in X5.windows(2) {
            let middle = (w[0] + w[1]) / 2.0;
            assert_eq!(at(&by_row, &X5, &data, middle), at(&as_whole, &X5, &data, middle));
        }
    }
    // Three samples: the parabola is fitted either way.
    let data = grid(&[3, 2], &[0.5, 1.0, 0.0, 1.5, 3.0, 0.5]);
    let rows =
        NdArray::from_shape_vec(vec![1, 2], vec![RowBoundary::NotAKnot, RowBoundary::NotAKnot])
            .unwrap();
    let by_row = fit(BoundaryCondition::Individual(rows), &[-1.0, 0.0, 3.0], &data);
    let as_whole = fit(BoundaryCondition::NotAKnot, &[-1.0, 0.0, 3.0], &data);
    assert_eq!(by_row.a, as_whole.a);
    assert_eq!(by_row.b, as_whole.b);
}

#[test]
fn every_row_follows_its_own_condition() {
    let x = [-1.0, 0.0, 3.0];
    let data = grid(&[3, 2], &[0.5, 1.0, 0.0, 1.5, 3.0, 0.5]);
    let second = RowBoundary::Mixed {
        left: SingleBoundary::NotAKnot,
        right: SingleBoundary::FirstDeriv(F(0.5)),
    };
    let rows = NdArray::from_shape_vec(vec![1, 2], vec![RowBoundary::Natural, second]).unwrap();
    let both = fit(BoundaryCondition::Individual(rows), &x, &data);
    assert_eq!(both.a.shape(), &vec![2, 2]);
    let first_alone = fit(BoundaryCondition::Natural, &x, &column(&[0.5, 0.0, 3.0]));
    let second_alone = fit(
        sides(SingleBoundary::NotAKnot, SingleBoundary::FirstDeriv(F(0.5))),
        &x,
        &column(&[1.0, 1.5, 0.5]),
    );
    for i in 0..2 {
        assert_eq!(both.a.get(i, 0), first_alone.a.get(i, 0));
        assert_eq!(both.b.get(i, 0), first_alone.b.get(i, 0));
        assert_eq!(both.a.get(i, 1), second_alone.a.get(i, 0));
        assert_eq!(both.b.get(i, 1), second_alone.b.get(i, 0));
    }
    let got = at(&both, &x, &data, 1.0);
    assert_eq!(got[0], at(&first_alone, &x, &column(&[0.5, 0.0, 3.0]), 1.0)[0]);
    assert_eq!(got[1], at(&second_alone, &x, &column(&[1.0, 1.5, 0.5]), 1.0)[0]);
}

#[test]
fn rows_over_several_axes_are_fitted_alike() {
    let x = [0.0, 1.0, 3.0, 4.0];
    let rows: [[f64; 4]; 4] =
        [[1.0, 3.0, 2.0, 5.0], [0.0, 0.5, 4.0, -1.0], [2.0, 2.0, 2.0, 2.0], [-3.0, 1.0, 0.0, 7.0]];
    let mut values = Vec::new();
    for i in 0..4 {
        for row in rows.iter() {
            values.push(row[i]);
        }
    }
    let data = grid(&[4, 2, 2], &values);
    assert_eq!(data.width(), 4);
    for boundary in [BoundaryCondition::NotAKnot, BoundaryCondition::Natural] {
        let alone: Vec<CubicSplineStrategy<F>> =
            rows.iter().map(|row| fit(boundary.clone(), &x, &column(row))).collect();
        let together = fit(boundary, &x, &data);
        assert_eq!(together.a.shape(), &vec![3, 2, 2]);
        for (j, single) in alone.iter().enumerate() {
            for i in 0..3 {
                assert_eq!(together.a.get(i, j), single.a.get(i, 0));
                assert_eq!(together.b.get(i, j), single.b.get(i, 0));
            }
        }
        let got = at(&together, &x, &data, 2.0);
        assert_eq!(got.len(), 4);
        for (j, single) in alone.iter().enumerate() {
            assert_eq!(got[j], at(single, &x, &column(&rows[j]), 2.0)[0]);
        }
    }
}

#[test]
fn periodic_needs_closed_rows() {
    let spline = CubicSpline::new().boundary(BoundaryCondition::Periodic);
    let err = spline.build(&axis(&X5), &column(&Y5)).unwrap_err();
    assert_eq!(
        err,
        BuilderError::ValueError(String::from(
            "for periodic boundary condition the first and last value must be equal. \
             First: 1.0, last: 4.0"
        ))
    );
    let data = grid(&[3, 2], &[0.5, 1.0, 0.0, 1.5, 0.5, 2.0]);
    let spline = CubicSpline::new().boundary(BoundaryCondition::Periodic);
    let err = spline.build(&axis(&[0.0, 1.0, 2.0]), &data).unwrap_err();
    assert_eq!(
        err.message(),
        "for periodic boundary condition the first and last value must be equal. \
         First: [0.5, 1.0], last: [0.5, 2.0]"
    );
    assert!(matches!(err, BuilderError::ValueError(_)));
    let err =
        CubicSpline::solve_for_k(&axis(&X5), &column(&Y5), InternalBoundary::Periodic).unwrap_err();
    assert!(matches!(err, BuilderError::ValueError(_)));
    // A row that ends on a value that is no number is open: nothing equals it.
    let spline = CubicSpline::new().boundary(BoundaryCondition::Periodic);
    let open = column(&[f64::NAN, 1.0, 2.0, f64::NAN]);
    assert!(spline.build(&axis(&[0.0, 1.0, 2.0, 3.0]), &open).is_err());
    // Only the periodic condition asks for closed rows.
    assert!(CubicSpline::new().build(&axis(&X5), &column(&Y5)).is_ok());
}

#[test]
fn periodic_on_an_uneven_grid() {
    let y = [1.0, 3.0, 2.0, 5.0, 1.0];
    let k = slopes_of(InternalBoundary::Periodic, &X5, &y);
    let want = [
        3623.0 / 3306.0,
        3533.0 / 3306.0,
        6269.0 / 3306.0,
        6701.0 / 3306.0,
        3623.0 / 3306.0,
    ];
    assert!(all_close(&k, &want), "{k:?}");
    assert_eq!(k[0], k[4]);
    let data = column(&y);
    let spline = fit(BoundaryCondition::Periodic, &X5, &data);
    let got = middles(&spline, &X5, &data);
    let want = [8831.0 / 4408.0, 133.0 / 58.0, 3839.0 / 1102.0, 777.0 / 232.0];
    assert!(all_close(&got, &want), "{got:?}");
}

#[test]
fn periodic_through_four_samples() {
    let k = slopes_of(InternalBoundary::Periodic, &[0.0, 1.0, 3.0, 4.0], &[1.0, 3.0, 2.0, 1.0]);
    assert!(all_close(&k, &[0.75, 1.8, -1.8, 0.75]), "{k:?}");
}

#[test]
fn periodic_through_three_samples() {
    // The chords have the slopes 2 and -1 over the lengths 1 and 2:
    // (2 / 1 - 1 / 2) / (1 / 1 + 1 / 2) = 1.
    let k = slopes_of(InternalBoundary::Periodic, &[0.0, 1.0, 3.0], &[1.0, 3.0, 1.0]);
    assert_eq!(k, vec![1.0, 1.0, 1.0]);
    let k = slopes_of(InternalBoundary::Periodic, &[0.0, 2.0, 3.0], &[1.0, 5.0, 1.0]);
    assert!(all_close(&k, &[-2.0, -2.0, -2.0]), "{k:?}");
}

#[test]
fn periodic_rows_are_solved_together() {
    let x = [0.0, 1.0, 3.0, 4.0, 7.0];
    let left = [1.0, 3.0, 2.0, 5.0, 1.0];
    let right = [0.0, -2.0, 4.0, 1.0, 0.0];
    let mut values = Vec::new();
    for i in 0..5 {
        values.push(left[i]);
        values.push(right[i]);
    }
    let data = grid(&[5, 2], &values);
    let k = CubicSpline::solve_for_k(&axis(&x), &data, InternalBoundary::Periodic).unwrap();
    let k_left = slopes_of(InternalBoundary::Periodic, &x, &left);
    let k_right = slopes_of(InternalBoundary::Periodic, &x, &right);
    for i in 0..5 {
        assert_eq!(k.get(i, 0).0, k_left[i]);
        assert_eq!(k.get(i, 1).0, k_right[i]);
    }
}

#[test]
fn periodic_extrapolation_repeats_the_curve() {
    let y = [1.0, 3.0, 2.0, 5.0, 1.0];
    let data = column(&y);
    let spline = CubicSpline::new()
        .boundary(BoundaryCondition::Periodic)
        .extrapolate(true)
        .build(&axis(&X5), &data)
        .unwrap();
    assert_eq!(spline.extrapolate, Extrapolate::Periodic);
    for (outside, inside) in [(8.5, 1.5), (-0.5, 6.5), (-7.5, 6.5), (24.0, 3.0), (7.25, 0.25)] {
        assert_eq!(at(&spline, &X5, &data, outside), at(&spline, &X5, &data, inside));
    }
    // Inside, the query is taken as it is.
    assert!(close(at(&spline, &X5, &data, 2.0)[0], 133.0 / 58.0));
}

#[test]
fn out_of_range_is_rejected_unless_extrapolating() {
    let data = column(&Y5);
    let spline = fit(BoundaryCondition::NotAKnot, &X5, &data);
    assert_eq!(spline.extrapolate, Extrapolate::No);
    let mut target = vec![F(-9.0)];
    for query in [7.5, -0.001, f64::INFINITY, f64::NAN] {
        let err = spline.interp_into(&axis(&X5), &data, &mut target, F(query)).unwrap_err();
        assert!(matches!(err, InterpolateError::OutOfBounds(_)));
        assert_eq!(target, vec![F(-9.0)]);
    }
    let err = spline.interp_into(&axis(&X5), &data, &mut target, F(7.5)).unwrap_err();
    assert_eq!(err, InterpolateError::OutOfBounds(String::from("x = 7.5 is not in range")));
    assert_eq!(err.message(), "x = 7.5 is not in range");
    // The ends themselves are in range.
    assert!(spline.interp_into(&axis(&X5), &data, &mut target, F(0.0)).is_ok());
    assert!(spline.interp_into(&axis(&X5), &data, &mut target, F(7.0)).is_ok());

    let spline = CubicSpline::new().extrapolate(true).build(&axis(&X5), &data).unwrap();
    assert_eq!(spline.extrapolate, Extrapolate::Yes);
    for query in [7.5, -0.001, -100.0, 1e6] {
        let got = at(&spline, &X5, &data, query)[0];
        assert!(got.is_finite(), "at {query}: {got}");
    }
}

#[test]
fn extrapolation_continues_the_last_cubic() {
    let data = column(&Y5);
    let spline = CubicSpline::new().extrapolate(true).build(&axis(&X5), &data).unwrap();
    let a = plain(spline.a.values());
    let b = plain(spline.b.values());
    let cubic = |i: usize, query: f64| {
        let t = (query - X5[i]) / (X5[i + 1] - X5[i]);
        (1.0 - t) * Y5[i] + t * Y5[i + 1] + t * (1.0 - t) * (a[i] * (1.0 - t) + b[i] * t)
    };
    assert_eq!(at(&spline, &X5, &data, 8.0)[0], cubic(3, 8.0));
    assert_eq!(at(&spline, &X5, &data, -2.0)[0], cubic(0, -2.0));
    assert_eq!(at(&spline, &X5, &data, 3.5)[0], cubic(2, 3.5));
    assert!(close(at(&spline, &X5, &data, -1.0)[0], -112.0 / 15.0));
    assert!(close(at(&spline, &X5, &data, 8.0)[0], -35.0 / 3.0));
}

#[test]
fn boundary_rows_of_the_wrong_shape_are_rejected() {
    let data = grid(&[3, 2], &[0.5, 1.0, 0.0, 1.5, 3.0, 0.5]);
    let x = axis(&[-1.0, 0.0, 3.0]);
    let rows = NdArray::from_shape_vec(vec![1, 3], vec![RowBoundary::Natural; 3]).unwrap();
    let err = CubicSpline::new()
        .boundary(BoundaryCondition::Individual(rows))
        .build(&x, &data)
        .unwrap_err();
    assert_eq!(
        err,
        BuilderError::ShapeError(String::from(
            "Boundary conditions array has wrong shape. Expected: [1, 2], got: [1, 3]"
        ))
    );
    // One condition per sample is too many along the leading axis.
    let rows = NdArray::from_shape_vec(vec![3, 2], vec![RowBoundary::Natural; 6]).unwrap();
    let err = CubicSpline::new()
        .boundary(BoundaryCondition::Individual(rows))
        .build(&x, &data)
        .unwrap_err();
    assert_eq!(
        err.message(),
        "Boundary conditions array has wrong shape. Expected: [1, 2], got: [3, 2]"
    );
    // The number of axes counts too.
    let rows = NdArray::from_shape_vec(vec![2], vec![RowBoundary::Natural; 2]).unwrap();
    let err = CubicSpline::new()
        .boundary(BoundaryCondition::Individual(rows))
        .build(&x, &data)
        .unwrap_err();
    assert_eq!(
        err.message(),
        "Boundary conditions array has wrong shape. Expected: [1, 2], got: [2]"
    );
    let rows = NdArray::from_shape_vec(vec![1, 2], vec![RowBoundary::Natural; 2]).unwrap();
    assert!(CubicSpline::new().boundary(BoundaryCondition::Individual(rows)).build(&x, &data).is_ok());
}

#[test]
fn two_samples_are_not_enough() {
    let err = CubicSpline::new().build(&axis(&[0.0, 1.0]), &column(&[1.0, 2.0])).unwrap_err();
    assert_eq!(
        err,
        BuilderError::NotEnoughData(String::from(
            "The chosen Interpolation strategy needs at least 3 data points"
        ))
    );
    let err = CubicSpline::new().build(&axis(&[]), &column(&[])).unwrap_err();
    assert!(matches!(err, BuilderError::NotEnoughData(_)));
    // Too few samples are reported before anything else.
    let err = CubicSpline::new()
        .boundary(BoundaryCondition::Periodic)
        .build(&axis(&[0.0, 1.0]), &column(&[1.0, 2.0]))
        .unwrap_err();
    assert!(matches!(err, BuilderError::NotEnoughData(_)));
    assert_eq!(<CubicSpline<F> as StrategyBuilder<F>>::minimum_data_length(), 3);
    assert!(CubicSpline::new().build(&axis(&[0.0, 1.0, 2.0]), &column(&[1.0, 2.0, 0.0])).is_ok());
}

#[test]
fn extrapolation_mode_follows_flag_and_condition() {
    let x = axis(&[0.0, 1.0, 2.0]);
    let data = column(&[1.0, 2.0, 1.0]);
    let mode = |extrapolate: bool, boundary: BoundaryCondition<F>| {
        CubicSpline::new()
            .boundary(boundary)
            .extrapolate(extrapolate)
            .build(&x, &data)
            .unwrap()
            .extrapolate
    };
    assert_eq!(mode(false, BoundaryCondition::NotAKnot), Extrapolate::No);
    assert_eq!(mode(false, BoundaryCondition::Periodic), Extrapolate::No);
    assert_eq!(mode(true, BoundaryCondition::Periodic), Extrapolate::Periodic);
    assert_eq!(mode(true, BoundaryCondition::Natural), Extrapolate::Yes);
    assert_eq!(mode(true, BoundaryCondition::Clamped), Extrapolate::Yes);
    // The last setting counts.
    let spline = CubicSpline::new().extrapolate(true).extrapolate(false).build(&x, &data).unwrap();
    assert_eq!(spline.extrapolate, Extrapolate::No);
}

#[test]
fn the_default_is_not_a_knot_without_extrapolation() {
    let data = column(&Y5);
    let by_default = CubicSpline::default().build(&axis(&X5), &data).unwrap();
    let not_a_knot = fit(BoundaryCondition::NotAKnot, &X5, &data);
    assert_eq!(by_default.a, not_a_knot.a);
    assert_eq!(by_default.b, not_a_knot.b);
    assert_eq!(by_default.extrapolate, Extrapolate::No);
    let natural = fit(BoundaryCondition::Natural, &X5, &data);
    assert_ne!(by_default.a, natural.a);
}

#[test]
fn data_without_rows_has_no_values() {
    let data = grid(&[3, 0], &[]);
    let spline = CubicSpline::new().build(&axis(&[0.0, 1.0, 2.0]), &data).unwrap();
    assert_eq!(spline.a.shape(), &vec![2, 0]);
    let mut target: Vec<F> = Vec::new();
    assert!(spline.interp_into(&axis(&[0.0, 1.0, 2.0]), &data, &mut target, F(0.5)).is_ok());
    assert!(target.is_empty());
    assert!(CubicSpline::new()
        .boundary(BoundaryCondition::Periodic)
        .build(&axis(&[0.0, 1.0, 2.0, 3.0]), &grid(&[4, 0], &[]))
        .is_ok());
}
