//! The linear system whose solution is the slope of the spline at every
//! coordinate, for the boundary conditions that keep it tridiagonal.
//!
//! With `dx(n) = x[n+1] - x[n]`, continuity of the second derivative at an
//! inner coordinate `n` reads
//! `dx(n) * k[n-1] + 2 * (dx(n) + dx(n-1)) * k[n] + dx(n-1) * k[n+1]
//!  = 3 * (dx(n) * (y[n] - y[n-1]) / dx(n-1) + dx(n-1) * (y[n+1] - y[n]) / dx(n))`.
//! The first and the last equation come from the boundary conditions, in
//! their specialized form: a first derivative `v` gives `k = v`, a second
//! derivative gives the equation of that derivative at the end, and
//! not-a-knot gives the equation under which the two outer segments have the
//! same third derivative, with the next inner equation taken in to keep the
//! matrix tridiagonal. A condition that is not specialized, `Natural` or
//! `Clamped`, is read here as a first derivative of 0; the solvers specialize
//! before they assemble.
use vstd::prelude::*;
use crate::array::NdArray;
use crate::boundary::SingleBoundary;
use crate::num;
use crate::num::SplineNum;
use crate::tridiagonal::{thomas, Bands};

verus! {

/// The length of segment `n`: `x[n+1] - x[n]`.
pub open spec fn dx<T: SplineNum>(x: Seq<T>, n: int) -> T {
    x[n + 1].minus_spec(x[n])
}

/// The slope of the chord over segment `n`: `(y[n+1] - y[n]) / dx(n)`.
pub open spec fn chord<T: SplineNum>(x: Seq<T>, y: Seq<T>, n: int) -> T {
    y[n + 1].minus_spec(y[n]).over_spec(dx(x, n))
}

/// The diagonal entry of the equation at the inner coordinate `n`.
pub open spec fn inner_mid<T: SplineNum>(x: Seq<T>, n: int) -> T {
    num::two::<T>().times_spec(dx(x, n).plus_spec(dx(x, n - 1)))
}

/// The right-hand side of the equation at the inner coordinate `n`.
pub open spec fn inner_rhs<T: SplineNum>(x: Seq<T>, y: Seq<T>, n: int) -> T {
    num::three::<T>().times_spec(
        dx(x, n).times_spec(y[n].minus_spec(y[n - 1])).over_spec(dx(x, n - 1)).plus_spec(
            dx(x, n - 1).times_spec(y[n + 1].minus_spec(y[n])).over_spec(dx(x, n)),
        ),
    )
}

/// The diagonal entry of the first equation.
pub open spec fn left_mid<T: SplineNum>(x: Seq<T>, left: SingleBoundary<T>) -> T {
    match left {
        SingleBoundary::NotAKnot => dx(x, 1),
        SingleBoundary::SecondDeriv(_) => num::two::<T>().times_spec(dx(x, 0)),
        _ => num::one::<T>(),
    }
}

/// The entry above the diagonal in the first equation.
pub open spec fn left_up<T: SplineNum>(x: Seq<T>, left: SingleBoundary<T>) -> T {
    match left {
        SingleBoundary::NotAKnot => x[2].minus_spec(x[0]),
        SingleBoundary::SecondDeriv(_) => dx(x, 0),
        _ => num::zero::<T>(),
    }
}

/// The right-hand side of the first equation.
pub open spec fn left_rhs<T: SplineNum>(x: Seq<T>, y: Seq<T>, left: SingleBoundary<T>) -> T {
    match left {
        SingleBoundary::NotAKnot => {
            let d = x[2].minus_spec(x[0]);
            let weight = dx(x, 0).plus_spec(num::two::<T>().times_spec(d)).times_spec(dx(x, 1));
            weight.times_spec(y[1].minus_spec(y[0])).over_spec(dx(x, 0)).plus_spec(
                dx(x, 0).power_spec(num::two::<T>()).times_spec(y[2].minus_spec(y[1])).over_spec(
                    dx(x, 1),
                ),
            ).over_spec(d)
        },
        SingleBoundary::SecondDeriv(v) => num::three::<T>().times_spec(y[1].minus_spec(y[0])).minus_spec(
            v.times_spec(dx(x, 0).power_spec(num::two::<T>())).over_spec(num::two::<T>()),
        ),
        SingleBoundary::FirstDeriv(v) => v,
        _ => num::zero::<T>(),
    }
}

/// The diagonal entry of the last equation.
pub open spec fn right_mid<T: SplineNum>(x: Seq<T>, right: SingleBoundary<T>) -> T {
    let n = x.len() as int;
    match right {
        SingleBoundary::NotAKnot => dx(x, n - 3),
        SingleBoundary::SecondDeriv(_) => num::two::<T>().times_spec(dx(x, n - 2)),
        _ => num::one::<T>(),
    }
}

/// The entry below the diagonal in the last equation.
pub open spec fn right_low<T: SplineNum>(x: Seq<T>, right: SingleBoundary<T>) -> T {
    let n = x.len() as int;
    match right {
        SingleBoundary::NotAKnot => x[n - 1].minus_spec(x[n - 3]),
        SingleBoundary::SecondDeriv(_) => dx(x, n - 2),
        _ => num::zero::<T>(),
    }
}

/// The right-hand side of the last equation.
pub open spec fn right_rhs<T: SplineNum>(x: Seq<T>, y: Seq<T>, right: SingleBoundary<T>) -> T {
    let n = x.len() as int;
    match right {
        SingleBoundary::NotAKnot => {
            let d = x[n - 1].minus_spec(x[n - 3]);
            let weight = num::two::<T>().times_spec(d).plus_spec(dx(x, n - 2)).times_spec(dx(x, n - 3));
            dx(x, n - 2).power_spec(num::two::<T>()).times_spec(y[n - 2].minus_spec(y[n - 3])).over_spec(
                dx(x, n - 3),
            ).plus_spec(weight.times_spec(y[n - 1].minus_spec(y[n - 2])).over_spec(dx(x, n - 2)))
                .over_spec(d)
        },
        SingleBoundary::SecondDeriv(v) => num::three::<T>().times_spec(
            y[n - 1].minus_spec(y[n - 2]),
        ).plus_spec(v.times_spec(dx(x, n - 2).power_spec(num::two::<T>())).over_spec(num::two::<T>())),
        SingleBoundary::FirstDeriv(v) => v,
        _ => num::zero::<T>(),
    }
}

/// The matrix of the system for the conditions `left` and `right`, one
/// equation per coordinate.
pub open spec fn mixed_bands<T: SplineNum>(
    x: Seq<T>,
    left: SingleBoundary<T>,
    right: SingleBoundary<T>,
) -> Bands<T> {
    let n = x.len() as int;
    Bands {
        up: Seq::new(
            x.len(),
            |i: int|
                if i == 0 {
                    left_up(x, left)
                } else if i == n - 1 {
                    num::zero::<T>()
                } else {
                    dx(x, i - 1)
                },
        ),
        mid: Seq::new(
            x.len(),
            |i: int|
                if i == 0 {
                    left_mid(x, left)
                } else if i == n - 1 {
                    right_mid(x, right)
                } else {
                    inner_mid(x, i)
                },
        ),
        low: Seq::new(
            x.len(),
            |i: int|
                if i == 0 {
                    num::zero::<T>()
                } else if i == n - 1 {
                    right_low(x, right)
                } else {
                    dx(x, i)
                },
        ),
    }
}

/// The right-hand side of the system for one row of data `y`.
pub open spec fn mixed_rhs<T: SplineNum>(
    x: Seq<T>,
    y: Seq<T>,
    left: SingleBoundary<T>,
    right: SingleBoundary<T>,
) -> Seq<T> {
    let n = x.len() as int;
    Seq::new(
        x.len(),
        |i: int|
            if i == 0 {
                left_rhs(x, y, left)
            } else if i == n - 1 {
                right_rhs(x, y, right)
            } else {
                inner_rhs(x, y, i)
            },
    )
}

/// The matrix of the system that fits one parabola through three samples.
pub open spec fn parabola_bands<T: SplineNum>(x: Seq<T>) -> Bands<T> {
    Bands {
        up: seq![num::one::<T>(), dx(x, 0), num::zero::<T>()],
        mid: seq![num::one::<T>(), num::two::<T>().times_spec(dx(x, 0).plus_spec(dx(x, 1))), num::one::<T>()],
        low: seq![num::zero::<T>(), dx(x, 1), num::one::<T>()],
    }
}

/// The right-hand side of the parabola system for one row of data `y`.
pub open spec fn parabola_rhs<T: SplineNum>(x: Seq<T>, y: Seq<T>) -> Seq<T> {
    seq![
        chord(x, y, 0).times_spec(num::two::<T>()),
        chord(x, y, 1).times_spec(dx(x, 0)).plus_spec(chord(x, y, 0).times_spec(dx(x, 1))).times_spec(
            num::three::<T>(),
        ),
        chord(x, y, 1).times_spec(num::two::<T>()),
    ]
}

/// The length of segment `n`.
pub fn spacing<T: SplineNum>(x: &Vec<T>, n: usize) -> (r: T)
    requires
        n + 1 < x.len(),
    ensures
        r == dx(x@, n as int),
{
    x[n + 1].minus(x[n])
}

/// The slope of the chord over segment `n` of the row at flat position `j`.
pub fn chord_slope<T: SplineNum>(x: &Vec<T>, data: &NdArray<T>, n: usize, j: usize) -> (r: T)
    requires
        data.wf(),
        x.len() == data@.rows(),
        n + 1 < x.len(),
        j < data@.width(),
    ensures
        r == chord(x@, data@.column(j as int), n as int),
{
    data.get(n + 1, j).minus(data.get(n, j)).over(spacing(x, n))
}

/// The three bands with the equations of the inner coordinates filled in and
/// zeros in the first and the last equation.
pub fn inner_bands<T: SplineNum>(x: &Vec<T>) -> (r: (Vec<T>, Vec<T>, Vec<T>))
    requires
        x.len() >= 3,
    ensures
        r.0@.len() == x.len(),
        r.1@.len() == x.len(),
        r.2@.len() == x.len(),
        forall|i: int| 0 < i < x.len() - 1 ==> #[trigger] r.0@[i] == dx(x@, i - 1),
        forall|i: int| 0 < i < x.len() - 1 ==> #[trigger] r.1@[i] == inner_mid(x@, i),
        forall|i: int| 0 < i < x.len() - 1 ==> #[trigger] r.2@[i] == dx(x@, i),
        r.0@[0] == num::zero::<T>(),
        r.1@[0] == num::zero::<T>(),
        r.2@[0] == num::zero::<T>(),
        r.0@[x.len() - 1] == num::zero::<T>(),
        r.1@[x.len() - 1] == num::zero::<T>(),
        r.2@[x.len() - 1] == num::zero::<T>(),
{
    let len = x.len();
    let zero = T::from_u8(0);
    let two = T::from_u8(2);
    let mut a_up: Vec<T> = Vec::with_capacity(len);
    let mut a_mid: Vec<T> = Vec::with_capacity(len);
    let mut a_low: Vec<T> = Vec::with_capacity(len);
    a_up.push(zero);
    a_mid.push(zero);
    a_low.push(zero);
    let mut n: usize = 1;
    while n < len - 1
        invariant
            1 <= n <= len - 1,
            len == x.len(),
            two == num::two::<T>(),
            zero == num::zero::<T>(),
            a_up@.len() == n,
            a_mid@.len() == n,
            a_low@.len() == n,
            a_up@[0] == zero,
            a_mid@[0] == zero,
            a_low@[0] == zero,
            forall|i: int| 0 < i < n ==> #[trigger] a_up@[i] == dx(x@, i - 1),
            forall|i: int| 0 < i < n ==> #[trigger] a_mid@[i] == inner_mid(x@, i),
            forall|i: int| 0 < i < n ==> #[trigger] a_low@[i] == dx(x@, i),
        decreases len - n,
    {
        let dxn = spacing(x, n);
        let dxn_1 = spacing(x, n - 1);
        a_up.push(dxn_1);
        a_mid.push(two.times(dxn.plus(dxn_1)));
        a_low.push(dxn);
        n += 1;
    }
    a_up.push(zero);
    a_mid.push(zero);
    a_low.push(zero);
    (a_up, a_mid, a_low)
}

/// The right-hand sides of the first `rows` equations, for every row of data
/// at once: the equations of the inner coordinates are filled in, the first
/// equation and, if it is among them, the last hold zeros.
pub fn inner_rhs_rows<T: SplineNum>(x: &Vec<T>, data: &NdArray<T>, rows: usize) -> (rhs: NdArray<T>)
    requires
        data.wf(),
        x.len() == data@.rows(),
        x.len() >= 3,
        1 <= rows <= x.len(),
    ensures
        rhs.wf(),
        rhs@.shape == data@.reshaped(rows),
        rhs@.width() == data@.width(),
        forall|i: int, j: int|
            0 < i < rows && i < x.len() - 1 && 0 <= j < data@.width() ==> #[trigger] rhs@.at(i, j)
                == inner_rhs(x@, data@.column(j), i),
        forall|i: int, j: int|
            (i == 0 || i == x.len() - 1) && i < rows && 0 <= j < data@.width() ==> #[trigger] rhs@.at(
                i,
                j,
            ) == num::zero::<T>(),
{
    let len = x.len();
    let width = data.width();
    let three = T::from_u8(3);
    proof {
        assert(rows * width <= len * width) by (nonlinear_arith)
            requires
                rows <= len,
                width >= 0,
        ;
    }
    let mut rhs = NdArray::filled(data, rows, T::from_u8(0));
    proof {
        assert forall|i: int, j: int| 0 <= i < rows && 0 <= j < width implies #[trigger] rhs@.at(
            i,
            j,
        ) == num::zero::<T>() by {
            crate::array::lemma_flat_index(i, j, rows as int, width as int);
        }
    }
    let mut n: usize = 1;
    while n < rows && n < len - 1
        invariant
            1 <= n,
            n <= rows || rows == 1,
            n <= len - 1,
            rows <= len,
            len == x.len(),
            len == data@.rows(),
            width == data@.width(),
            data.wf(),
            three == num::three::<T>(),
            rhs.wf(),
            rhs@.rows() == rows,
            rhs@.width() == width,
            rhs@.shape == data@.reshaped(rows),
            forall|i: int, j: int|
                0 < i < n && i < rows && 0 <= j < width ==> #[trigger] rhs@.at(i, j) == inner_rhs(
                    x@,
                    data@.column(j),
                    i,
                ),
            forall|i: int, j: int|
                (i == 0 || n <= i < rows) && 0 <= j < width ==> #[trigger] rhs@.at(i, j)
                    == num::zero::<T>(),
        decreases len - n,
    {
        let dxn = spacing(x, n);
        let dxn_1 = spacing(x, n - 1);
        let mut j: usize = 0;
        while j < width
            invariant
                1 <= n < len - 1,
                n < rows,
                j <= width,
                len == x.len(),
                len == data@.rows(),
                width == data@.width(),
                data.wf(),
                three == num::three::<T>(),
                dxn == dx(x@, n as int),
                dxn_1 == dx(x@, n - 1),
                rhs.wf(),
                rhs@.rows() == rows,
                rhs@.width() == width,
                rhs@.shape == data@.reshaped(rows),
                forall|i: int, c: int|
                    0 < i < n && 0 <= c < width ==> #[trigger] rhs@.at(i, c) == inner_rhs(
                        x@,
                        data@.column(c),
                        i,
                    ),
                forall|c: int|
                    0 <= c < j ==> #[trigger] rhs@.at(n as int, c) == inner_rhs(
                        x@,
                        data@.column(c),
                        n as int,
                    ),
                forall|i: int, c: int|
                    (i == 0 || n < i < rows) && 0 <= c < width ==> #[trigger] rhs@.at(i, c)
                        == num::zero::<T>(),
            decreases width - j,
        {
            let y_left = data.get(n - 1, j);
            let y_mid = data.get(n, j);
            let y_right = data.get(n + 1, j);
            let value = three.times(
                dxn.times(y_mid.minus(y_left)).over(dxn_1).plus(
                    dxn_1.times(y_right.minus(y_mid)).over(dxn),
                ),
            );
            rhs.set(n, j, value);
            j += 1;
        }
        n += 1;
    }
    rhs
}

/// The entries of the first equation on and above the diagonal.
pub fn left_entries<T: SplineNum>(x: &Vec<T>, left: SingleBoundary<T>) -> (r: (T, T))
    requires
        x.len() >= 3,
    ensures
        r.0 == left_mid(x@, left),
        r.1 == left_up(x@, left),
{
    match left {
        SingleBoundary::NotAKnot => (spacing(x, 1), x[2].minus(x[0])),
        SingleBoundary::SecondDeriv(_) => {
            let dx0 = spacing(x, 0);
            (T::from_u8(2).times(dx0), dx0)
        },
        _ => (T::from_u8(1), T::from_u8(0)),
    }
}

/// The entries of the last equation on and below the diagonal.
pub fn right_entries<T: SplineNum>(x: &Vec<T>, right: SingleBoundary<T>) -> (r: (T, T))
    requires
        x.len() >= 3,
    ensures
        r.0 == right_mid(x@, right),
        r.1 == right_low(x@, right),
{
    let len = x.len();
    match right {
        SingleBoundary::NotAKnot => (spacing(x, len - 3), x[len - 1].minus(x[len - 3])),
        SingleBoundary::SecondDeriv(_) => {
            let dx_1 = spacing(x, len - 2);
            (T::from_u8(2).times(dx_1), dx_1)
        },
        _ => (T::from_u8(1), T::from_u8(0)),
    }
}

/// The right-hand side of the first equation for the row of data at flat
/// position `j`.
pub fn left_value<T: SplineNum>(x: &Vec<T>, data: &NdArray<T>, left: SingleBoundary<T>, j: usize) -> (r:
    T)
    requires
        data.wf(),
        x.len() == data@.rows(),
        x.len() >= 3,
        j < data@.width(),
    ensures
        r == left_rhs(x@, data@.column(j as int), left),
{
    let two = T::from_u8(2);
    match left {
        SingleBoundary::NotAKnot => {
            let dx0 = spacing(x, 0);
            let dx1 = spacing(x, 1);
            let d = x[2].minus(x[0]);
            let weight = dx0.plus(two.times(d)).times(dx1);
            let y0 = data.get(0, j);
            let y1 = data.get(1, j);
            let y2 = data.get(2, j);
            weight.times(y1.minus(y0)).over(dx0).plus(dx0.power(two).times(y2.minus(y1)).over(dx1))
                .over(d)
        },
        SingleBoundary::SecondDeriv(deriv) => {
            let dx0 = spacing(x, 0);
            let y0 = data.get(0, j);
            let y1 = data.get(1, j);
            T::from_u8(3).times(y1.minus(y0)).minus(deriv.times(dx0.power(two)).over(two))
        },
        SingleBoundary::FirstDeriv(deriv) => deriv,
        _ => T::from_u8(0),
    }
}

/// The right-hand side of the last equation for the row of data at flat
/// position `j`.
pub fn right_value<T: SplineNum>(
    x: &Vec<T>,
    data: &NdArray<T>,
    right: SingleBoundary<T>,
    j: usize,
) -> (r: T)
    requires
        data.wf(),
        x.len() == data@.rows(),
        x.len() >= 3,
        j < data@.width(),
    ensures
        r == right_rhs(x@, data@.column(j as int), right),
{
    let len = x.len();
    let two = T::from_u8(2);
    match right {
        SingleBoundary::NotAKnot => {
            let dx_1 = spacing(x, len - 2);
            let dx_2 = spacing(x, len - 3);
            let d = x[len - 1].minus(x[len - 3]);
            let weight = two.times(d).plus(dx_1).times(dx_2);
            let y_1 = data.get(len - 1, j);
            let y_2 = data.get(len - 2, j);
            let y_3 = data.get(len - 3, j);
            dx_1.power(two).times(y_2.minus(y_3)).over(dx_2).plus(
                weight.times(y_1.minus(y_2)).over(dx_1),
            ).over(d)
        },
        SingleBoundary::SecondDeriv(deriv) => {
            let dx_1 = spacing(x, len - 2);
            let y_n = data.get(len - 1, j);
            let y_n1 = data.get(len - 2, j);
            T::from_u8(3).times(y_n.minus(y_n1)).plus(deriv.times(dx_1.power(two)).over(two))
        },
        SingleBoundary::FirstDeriv(deriv) => deriv,
        _ => T::from_u8(0),
    }
}

/// The slopes of every row of data under the conditions `left` and `right`
/// at the two ends: the system is assembled once and solved for all rows
/// together.
pub fn solve_mixed<T: SplineNum>(
    x: &Vec<T>,
    data: &NdArray<T>,
    left: SingleBoundary<T>,
    right: SingleBoundary<T>,
) -> (k: NdArray<T>)
    requires
        data.wf(),
        x.len() == data@.rows(),
        x.len() >= 3,
    ensures
        k.wf(),
        k@.shape == data@.shape,
        forall|j: int|
            0 <= j < data@.width() ==> #[trigger] k@.column(j) == mixed_bands(
                x@,
                left.specialized(),
                right.specialized(),
            ).solve(mixed_rhs(x@, data@.column(j), left.specialized(), right.specialized())),
{
    let len = x.len();
    let width = data.width();
    let left = left.specialize();
    let right = right.specialize();
    let (mut a_up, mut a_mid, mut a_low) = inner_bands(x);
    let (mid0, up0) = left_entries(x, left);
    a_mid.set(0, mid0);
    a_up.set(0, up0);
    let (mid_n, low_n) = right_entries(x, right);
    a_mid.set(len - 1, mid_n);
    a_low.set(len - 1, low_n);
    let mut rhs = inner_rhs_rows(x, data, len);
    proof {
        assert(data@.reshaped(len) =~= data@.shape);
    }
    let mut j: usize = 0;
    while j < width
        invariant
            j <= width,
            len == x.len(),
            len >= 3,
            len == data@.rows(),
            width == data@.width(),
            data.wf(),
            rhs.wf(),
            rhs@.shape == data@.shape,
            forall|i: int, c: int|
                0 < i < len - 1 && 0 <= c < width ==> #[trigger] rhs@.at(i, c) == inner_rhs(
                    x@,
                    data@.column(c),
                    i,
                ),
            forall|c: int|
                0 <= c < j ==> #[trigger] rhs@.at(0, c) == left_rhs(x@, data@.column(c), left),
            forall|c: int|
                0 <= c < j ==> #[trigger] rhs@.at(len - 1, c) == right_rhs(
                    x@,
                    data@.column(c),
                    right,
                ),
        decreases width - j,
    {
        let first = left_value(x, data, left, j);
        let last = right_value(x, data, right, j);
        rhs.set(0, j, first);
        rhs.set(len - 1, j, last);
        j += 1;
    }
    proof {
        let bands = Bands { up: a_up@, mid: a_mid@, low: a_low@ };
        assert(bands.up =~= mixed_bands(x@, left, right).up);
        assert(bands.mid =~= mixed_bands(x@, left, right).mid);
        assert(bands.low =~= mixed_bands(x@, left, right).low);
        assert forall|c: int| 0 <= c < width implies #[trigger] rhs@.column(c) == mixed_rhs(
            x@,
            data@.column(c),
            left,
            right,
        ) by {
            assert(rhs@.column(c) =~= mixed_rhs(x@, data@.column(c), left, right));
        }
    }
    thomas(&a_up, &a_mid, &a_low, rhs)
}

/// The slopes of every row of three samples on the parabola through them.
pub fn solve_parabola<T: SplineNum>(x: &Vec<T>, data: &NdArray<T>) -> (k: NdArray<T>)
    requires
        data.wf(),
        x.len() == data@.rows(),
        x.len() == 3,
    ensures
        k.wf(),
        k@.shape == data@.shape,
        forall|j: int|
            0 <= j < data@.width() ==> #[trigger] k@.column(j) == parabola_bands(x@).solve(
                parabola_rhs(x@, data@.column(j)),
            ),
{
    let width = data.width();
    let zero = T::from_u8(0);
    let one = T::from_u8(1);
    let two = T::from_u8(2);
    let three = T::from_u8(3);
    let dx0 = spacing(x, 0);
    let dx1 = spacing(x, 1);
    let mut a_up: Vec<T> = Vec::with_capacity(3);
    let mut a_mid: Vec<T> = Vec::with_capacity(3);
    let mut a_low: Vec<T> = Vec::with_capacity(3);
    a_up.push(one);
    a_up.push(dx0);
    a_up.push(zero);
    a_mid.push(one);
    a_mid.push(two.times(dx0.plus(dx1)));
    a_mid.push(one);
    a_low.push(zero);
    a_low.push(dx1);
    a_low.push(one);
    let mut rhs = NdArray::filled(data, 3, zero);
    proof {
        assert(data@.reshaped(3) =~= data@.shape);
    }
    let mut j: usize = 0;
    while j < width
        invariant
            j <= width,
            x.len() == 3,
            data@.rows() == 3,
            width == data@.width(),
            data.wf(),
            two == num::two::<T>(),
            three == num::three::<T>(),
            dx0 == dx(x@, 0),
            dx1 == dx(x@, 1),
            rhs.wf(),
            rhs@.shape == data@.shape,
            forall|i: int, c: int|
                0 <= i < 3 && 0 <= c < j ==> #[trigger] rhs@.at(i, c) == parabola_rhs(
                    x@,
                    data@.column(c),
                )[i],
        decreases width - j,
    {
        let slope0 = chord_slope(x, data, 0, j);
        let slope1 = chord_slope(x, data, 1, j);
        rhs.set(0, j, slope0.times(two));
        rhs.set(1, j, slope1.times(dx0).plus(slope0.times(dx1)).times(three));
        rhs.set(2, j, slope1.times(two));
        j += 1;
    }
    proof {
        let bands = Bands { up: a_up@, mid: a_mid@, low: a_low@ };
        assert(bands.up =~= parabola_bands(x@).up);
        assert(bands.mid =~= parabola_bands(x@).mid);
        assert(bands.low =~= parabola_bands(x@).low);
        assert forall|c: int| 0 <= c < width implies #[trigger] rhs@.column(c) == parabola_rhs(
            x@,
            data@.column(c),
        ) by {
            assert(rhs@.column(c) =~= parabola_rhs(x@, data@.column(c)));
        }
    }
    thomas(&a_up, &a_mid, &a_low, rhs)
}

} // verus!
