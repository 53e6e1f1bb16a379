//! The slopes of a periodic spline.
//!
//! The curve wraps around: the last coordinate stands for the first one a
//! period later, so the slope there is the slope at the first coordinate,
//! and the equation at the first coordinate couples it with the slope at the
//! coordinate before the last. That coupling breaks the tridiagonal form. The
//! slope before the last is therefore split off: the remaining equations are
//! solved once for the data and once for a unit of that slope, and its own
//! equation then fixes how much of the second solution is added to the first.
use vstd::prelude::*;
use crate::array::NdArray;
use crate::array::NdSpec;
use crate::num;
use crate::num::SplineNum;
use crate::system::{chord, chord_slope, dx, inner_mid, inner_rhs, inner_rhs_rows, spacing};
use crate::tridiagonal::{thomas, Bands};

verus! {

/// Whether every row of data ends on the value on which it starts.
pub open spec fn ends_meet<T: SplineNum>(data: NdSpec<T>) -> bool {
    forall|j: int|
        0 <= j < data.width() ==> (#[trigger] data.at(0, j)).equals_spec(
            data.at(data.rows() - 1, j),
        )
}

/// The slope that a periodic spline through three samples has at all of its
/// coordinates: the mean of the two chord slopes, each weighted by the
/// inverse of the length of its segment.
pub open spec fn periodic3_slope<T: SplineNum>(x: Seq<T>, y: Seq<T>) -> T {
    chord(x, y, 0).over_spec(dx(x, 0)).plus_spec(chord(x, y, 1).over_spec(dx(x, 1))).over_spec(
        num::one::<T>().over_spec(dx(x, 0)).plus_spec(num::one::<T>().over_spec(dx(x, 1))),
    )
}

/// The matrix of the equations at all coordinates but the last two, without
/// the coupling to the slope before the last.
pub open spec fn periodic_bands<T: SplineNum>(x: Seq<T>) -> Bands<T> {
    let n = x.len() as int;
    Bands {
        up: Seq::new(
            (n - 2) as nat,
            |i: int|
                if i == 0 {
                    dx(x, n - 2)
                } else {
                    dx(x, i - 1)
                },
        ),
        mid: Seq::new(
            (n - 2) as nat,
            |i: int|
                if i == 0 {
                    num::two::<T>().times_spec(dx(x, n - 2).plus_spec(dx(x, 0)))
                } else {
                    inner_mid(x, i)
                },
        ),
        low: Seq::new(
            (n - 2) as nat,
            |i: int|
                if i == 0 {
                    num::zero::<T>()
                } else {
                    dx(x, i)
                },
        ),
    }
}

/// The right-hand side of the equation at the first coordinate, whose left
/// neighbour is the coordinate before the last.
pub open spec fn periodic_head<T: SplineNum>(x: Seq<T>, y: Seq<T>) -> T {
    let n = x.len() as int;
    chord(x, y, n - 2).times_spec(dx(x, 0)).plus_spec(chord(x, y, 0).times_spec(dx(x, n - 2)))
        .times_spec(num::three::<T>())
}

/// The right-hand side of the equation at the coordinate before the last.
pub open spec fn periodic_closing<T: SplineNum>(x: Seq<T>, y: Seq<T>) -> T {
    let n = x.len() as int;
    chord(x, y, n - 3).times_spec(dx(x, n - 2)).plus_spec(
        chord(x, y, n - 2).times_spec(dx(x, n - 3)),
    ).times_spec(num::three::<T>())
}

/// The right-hand sides that the data gives to the equations at all
/// coordinates but the last two.
pub open spec fn periodic_forcing<T: SplineNum>(x: Seq<T>, y: Seq<T>) -> Seq<T> {
    Seq::new(
        (x.len() - 2) as nat,
        |i: int|
            if i == 0 {
                periodic_head(x, y)
            } else {
                inner_rhs(x, y, i)
            },
    )
}

/// The right-hand sides that one unit of the slope before the last gives to
/// the same equations: it enters the first and the last of them.
pub open spec fn periodic_corner<T: SplineNum>(x: Seq<T>) -> Seq<T> {
    let n = x.len() as int;
    Seq::new(
        (n - 2) as nat,
        |i: int|
            if i == n - 3 {
                dx(x, n - 4).negate_spec()
            } else if i == 0 {
                dx(x, 0).negate_spec()
            } else {
                num::zero::<T>()
            },
    )
}

/// The slope at the coordinate before the last, from its own equation.
pub open spec fn periodic_correction<T: SplineNum>(x: Seq<T>, y: Seq<T>) -> T {
    let n = x.len() as int;
    let k1 = periodic_bands(x).solve(periodic_forcing(x, y));
    let k2 = periodic_bands(x).solve(periodic_corner(x));
    periodic_closing(x, y).minus_spec(k1[0].times_spec(dx(x, n - 3))).minus_spec(
        k1[n - 3].times_spec(dx(x, n - 2)),
    ).over_spec(
        k2[0].times_spec(dx(x, n - 3)).plus_spec(k2[n - 3].times_spec(dx(x, n - 2))).plus_spec(
            num::two::<T>().times_spec(dx(x, n - 2).plus_spec(dx(x, n - 3))),
        ),
    )
}

/// The slope at coordinate `i`, for `i` before the last two.
pub open spec fn periodic_slope<T: SplineNum>(x: Seq<T>, y: Seq<T>, i: int) -> T {
    let k1 = periodic_bands(x).solve(periodic_forcing(x, y));
    let k2 = periodic_bands(x).solve(periodic_corner(x));
    k1[i].plus_spec(periodic_correction(x, y).times_spec(k2[i]))
}

/// The slopes of the periodic spline through more than three samples.
pub open spec fn periodic_slopes<T: SplineNum>(x: Seq<T>, y: Seq<T>) -> Seq<T> {
    let n = x.len() as int;
    Seq::new(
        x.len(),
        |i: int|
            if i < n - 2 {
                periodic_slope(x, y, i)
            } else if i == n - 2 {
                periodic_correction(x, y)
            } else {
                periodic_slope(x, y, 0)
            },
    )
}

/// The slopes of the periodic spline through three samples.
pub open spec fn periodic3_slopes<T: SplineNum>(x: Seq<T>, y: Seq<T>) -> Seq<T> {
    Seq::new(3, |i: int| periodic3_slope(x, y))
}

/// Tells whether every row of data ends on the value on which it starts.
pub fn check_ends<T: SplineNum>(data: &NdArray<T>) -> (r: bool)
    requires
        data.wf(),
        data@.rows() >= 1,
    ensures
        r == ends_meet(data@),
{
    let width = data.width();
    let last = data.rows() - 1;
    let mut j: usize = 0;
    while j < width
        invariant
            j <= width,
            width == data@.width(),
            last == data@.rows() - 1,
            data.wf(),
            forall|c: int|
                0 <= c < j ==> (#[trigger] data@.at(0, c)).equals_spec(data@.at(last as int, c)),
        decreases width - j,
    {
        if !data.get(0, j).equals(data.get(last, j)) {
            return false;
        }
        j += 1;
    }
    true
}

/// The slopes of every row of three samples under the periodic condition.
pub fn solve_periodic3<T: SplineNum>(x: &Vec<T>, data: &NdArray<T>) -> (k: NdArray<T>)
    requires
        data.wf(),
        x.len() == data@.rows(),
        x.len() == 3,
    ensures
        k.wf(),
        k@.shape == data@.shape,
        forall|j: int|
            0 <= j < data@.width() ==> #[trigger] k@.column(j) == periodic3_slopes(
                x@,
                data@.column(j),
            ),
{
    let width = data.width();
    let one = T::from_u8(1);
    let dx0 = spacing(x, 0);
    let dx1 = spacing(x, 1);
    let mut k = NdArray::filled(data, 3, T::from_u8(0));
    proof {
        assert(data@.reshaped(3) =~= data@.shape);
    }
    let mut j: usize = 0;
    while j < width
        invariant
            j <= width,
            x.len() == 3,
            data@.rows() == 3,
            width == data@.width(),
            data.wf(),
            one == num::one::<T>(),
            dx0 == dx(x@, 0),
            dx1 == dx(x@, 1),
            k.wf(),
            k@.shape == data@.shape,
            forall|i: int, c: int|
                0 <= i < 3 && 0 <= c < j ==> #[trigger] k@.at(i, c) == periodic3_slope(
                    x@,
                    data@.column(c),
                ),
        decreases width - j,
    {
        let slope0 = chord_slope(x, data, 0, j);
        let slope1 = chord_slope(x, data, 1, j);
        let slope = slope0.over(dx0).plus(slope1.over(dx1)).over(
            one.over(dx0).plus(one.over(dx1)),
        );
        k.set(0, j, slope);
        k.set(1, j, slope);
        k.set(2, j, slope);
        j += 1;
    }
    proof {
        assert forall|c: int| 0 <= c < width implies #[trigger] k@.column(c) == periodic3_slopes(
            x@,
            data@.column(c),
        ) by {
            assert(k@.column(c) =~= periodic3_slopes(x@, data@.column(c)));
        }
    }
    k
}

/// The three bands of [`periodic_bands`].
fn periodic_matrix<T: SplineNum>(x: &Vec<T>) -> (r: (Vec<T>, Vec<T>, Vec<T>))
    requires
        x.len() > 3,
    ensures
        (Bands { up: r.0@, mid: r.1@, low: r.2@ }) == periodic_bands(x@),
{
    let len = x.len();
    let two = T::from_u8(2);
    let dx0 = spacing(x, 0);
    let dx_1 = spacing(x, len - 2);
    let mut a_up: Vec<T> = Vec::with_capacity(len - 2);
    let mut a_mid: Vec<T> = Vec::with_capacity(len - 2);
    let mut a_low: Vec<T> = Vec::with_capacity(len - 2);
    a_up.push(dx_1);
    a_mid.push(two.times(dx_1.plus(dx0)));
    a_low.push(T::from_u8(0));
    let mut n: usize = 1;
    while n < len - 2
        invariant
            1 <= n <= len - 2,
            len == x.len(),
            two == num::two::<T>(),
            a_up@.len() == n,
            a_mid@.len() == n,
            a_low@.len() == n,
            forall|i: int| 0 <= i < n ==> #[trigger] a_up@[i] == periodic_bands(x@).up[i],
            forall|i: int| 0 <= i < n ==> #[trigger] a_mid@[i] == periodic_bands(x@).mid[i],
            forall|i: int| 0 <= i < n ==> #[trigger] a_low@[i] == periodic_bands(x@).low[i],
        decreases len - n,
    {
        let dxn = spacing(x, n);
        let dxn_1 = spacing(x, n - 1);
        a_up.push(dxn_1);
        a_mid.push(two.times(dxn.plus(dxn_1)));
        a_low.push(dxn);
        n += 1;
    }
    proof {
        assert(a_up@ =~= periodic_bands(x@).up);
        assert(a_mid@ =~= periodic_bands(x@).mid);
        assert(a_low@ =~= periodic_bands(x@).low);
    }
    (a_up, a_mid, a_low)
}

/// The right-hand sides of [`periodic_forcing`], for every row of data.
fn periodic_forcing_rows<T: SplineNum>(x: &Vec<T>, data: &NdArray<T>) -> (rhs: NdArray<T>)
    requires
        data.wf(),
        x.len() == data@.rows(),
        x.len() > 3,
    ensures
        rhs.wf(),
        rhs@.shape == data@.reshaped((x.len() - 2) as usize),
        rhs@.width() == data@.width(),
        forall|j: int|
            0 <= j < data@.width() ==> #[trigger] rhs@.column(j) == periodic_forcing(
                x@,
                data@.column(j),
            ),
{
    let len = x.len();
    let width = data.width();
    let three = T::from_u8(3);
    let dx0 = spacing(x, 0);
    let dx_1 = spacing(x, len - 2);
    let mut rhs = inner_rhs_rows(x, data, len - 2);
    let mut j: usize = 0;
    while j < width
        invariant
            j <= width,
            len == x.len(),
            len > 3,
            len == data@.rows(),
            width == data@.width(),
            data.wf(),
            three == num::three::<T>(),
            dx0 == dx(x@, 0),
            dx_1 == dx(x@, len - 2),
            rhs.wf(),
            rhs@.shape == data@.reshaped((len - 2) as usize),
            rhs@.width() == width,
            rhs@.rows() == len - 2,
            forall|i: int, c: int|
                0 < i < len - 2 && 0 <= c < width ==> #[trigger] rhs@.at(i, c) == inner_rhs(
                    x@,
                    data@.column(c),
                    i,
                ),
            forall|c: int|
                0 <= c < j ==> #[trigger] rhs@.at(0, c) == periodic_head(x@, data@.column(c)),
        decreases width - j,
    {
        let slope0 = chord_slope(x, data, 0, j);
        let slope_1 = chord_slope(x, data, len - 2, j);
        rhs.set(0, j, slope_1.times(dx0).plus(slope0.times(dx_1)).times(three));
        j += 1;
    }
    proof {
        assert forall|c: int| 0 <= c < width implies #[trigger] rhs@.column(c) == periodic_forcing(
            x@,
            data@.column(c),
        ) by {
            assert(rhs@.column(c) =~= periodic_forcing(x@, data@.column(c)));
        }
    }
    rhs
}

/// The right-hand sides of [`periodic_corner`], the same for every row of
/// data.
fn periodic_corner_rows<T: SplineNum>(x: &Vec<T>, data: &NdArray<T>) -> (rhs: NdArray<T>)
    requires
        data.wf(),
        x.len() == data@.rows(),
        x.len() > 3,
    ensures
        rhs.wf(),
        rhs@.shape == data@.reshaped((x.len() - 2) as usize),
        rhs@.width() == data@.width(),
        forall|j: int| 0 <= j < data@.width() ==> #[trigger] rhs@.column(j) == periodic_corner(x@),
{
    let len = x.len();
    let width = data.width();
    let first = spacing(x, 0).negate();
    let last = spacing(x, len - 4).negate();
    proof {
        assert((len - 2) * width <= len * width) by (nonlinear_arith)
            requires
                len >= 2,
                width >= 0,
        ;
    }
    let mut rhs = NdArray::filled(data, len - 2, T::from_u8(0));
    proof {
        assert forall|i: int, c: int| 0 <= i < len - 2 && 0 <= c < width implies #[trigger] rhs@.at(
            i,
            c,
        ) == num::zero::<T>() by {
            crate::array::lemma_flat_index(i, c, len - 2, width as int);
        }
    }
    let mut j: usize = 0;
    while j < width
        invariant
            j <= width,
            len == x.len(),
            len > 3,
            len == data@.rows(),
            width == data@.width(),
            data.wf(),
            first == dx(x@, 0).negate_spec(),
            last == dx(x@, len - 4).negate_spec(),
            rhs.wf(),
            rhs@.shape == data@.reshaped((len - 2) as usize),
            rhs@.width() == width,
            rhs@.rows() == len - 2,
            forall|i: int, c: int|
                0 <= i < len - 2 && 0 <= c < j ==> #[trigger] rhs@.at(i, c) == periodic_corner(
                    x@,
                )[i],
            forall|i: int, c: int|
                0 <= i < len - 2 && j <= c < width ==> #[trigger] rhs@.at(i, c) == num::zero::<T>(),
        decreases width - j,
    {
        rhs.set(0, j, first);
        rhs.set(len - 3, j, last);
        j += 1;
    }
    proof {
        assert forall|c: int| 0 <= c < width implies #[trigger] rhs@.column(c) == periodic_corner(
            x@,
        ) by {
            assert(rhs@.column(c) =~= periodic_corner(x@));
        }
    }
    rhs
}

/// The slope at the coordinate before the last, for every row of data.
fn periodic_corrections<T: SplineNum>(
    x: &Vec<T>,
    data: &NdArray<T>,
    k1: &NdArray<T>,
    k2: &NdArray<T>,
) -> (r: Vec<T>)
    requires
        data.wf(),
        x.len() == data@.rows(),
        x.len() > 3,
        k1.wf(),
        k2.wf(),
        k1@.shape == data@.reshaped((x.len() - 2) as usize),
        k2@.shape == data@.reshaped((x.len() - 2) as usize),
        forall|j: int|
            0 <= j < data@.width() ==> #[trigger] k1@.column(j) == periodic_bands(x@).solve(
                periodic_forcing(x@, data@.column(j)),
            ),
        forall|j: int|
            0 <= j < data@.width() ==> #[trigger] k2@.column(j) == periodic_bands(x@).solve(
                periodic_corner(x@),
            ),
    ensures
        r@.len() == data@.width(),
        forall|j: int|
            0 <= j < data@.width() ==> #[trigger] r@[j] == periodic_correction(
                x@,
                data@.column(j),
            ),
{
    let len = x.len();
    let width = data.width();
    let two = T::from_u8(2);
    let three = T::from_u8(3);
    let dx_1 = spacing(x, len - 2);
    let dx_2 = spacing(x, len - 3);
    proof {
        crate::array::lemma_width_of_update(data@.shape, (len - 2) as usize);
    }
    let mut r: Vec<T> = Vec::with_capacity(width);
    let mut j: usize = 0;
    while j < width
        invariant
            j <= width,
            len == x.len(),
            len > 3,
            len == data@.rows(),
            width == data@.width(),
            data.wf(),
            k1.wf(),
            k2.wf(),
            k1@.rows() == len - 2,
            k2@.rows() == len - 2,
            k1@.width() == width,
            k2@.width() == width,
            two == num::two::<T>(),
            three == num::three::<T>(),
            dx_1 == dx(x@, len - 2),
            dx_2 == dx(x@, len - 3),
            forall|c: int|
                0 <= c < width ==> #[trigger] k1@.column(c) == periodic_bands(x@).solve(
                    periodic_forcing(x@, data@.column(c)),
                ),
            forall|c: int|
                0 <= c < width ==> #[trigger] k2@.column(c) == periodic_bands(x@).solve(
                    periodic_corner(x@),
                ),
            r@.len() == j,
            forall|c: int|
                0 <= c < j ==> #[trigger] r@[c] == periodic_correction(x@, data@.column(c)),
        decreases width - j,
    {
        let slope_1 = chord_slope(x, data, len - 2, j);
        let slope_2 = chord_slope(x, data, len - 3, j);
        let closing = slope_2.times(dx_1).plus(slope_1.times(dx_2)).times(three);
        let k1_first = k1.get(0, j);
        let k1_last = k1.get(len - 3, j);
        let k2_first = k2.get(0, j);
        let k2_last = k2.get(len - 3, j);
        proof {
            assert(k1@.column(j as int)[0] == k1@.at(0, j as int));
            assert(k1@.column(j as int)[len - 3] == k1@.at(len - 3, j as int));
            assert(k2@.column(j as int)[0] == k2@.at(0, j as int));
            assert(k2@.column(j as int)[len - 3] == k2@.at(len - 3, j as int));
        }
        let value = closing.minus(k1_first.times(dx_2)).minus(k1_last.times(dx_1)).over(
            k2_first.times(dx_2).plus(k2_last.times(dx_1)).plus(two.times(dx_1.plus(dx_2))),
        );
        r.push(value);
        j += 1;
    }
    r
}

/// The slopes of every row of more than three samples under the periodic
/// condition.
pub fn solve_periodic<T: SplineNum>(x: &Vec<T>, data: &NdArray<T>) -> (k: NdArray<T>)
    requires
        data.wf(),
        x.len() == data@.rows(),
        x.len() > 3,
    ensures
        k.wf(),
        k@.shape == data@.shape,
        forall|j: int|
            0 <= j < data@.width() ==> #[trigger] k@.column(j) == periodic_slopes(
                x@,
                data@.column(j),
            ),
{
    let len = x.len();
    let width = data.width();
    let (a_up, a_mid, a_low) = periodic_matrix(x);
    let rhs1 = periodic_forcing_rows(x, data);
    let rhs2 = periodic_corner_rows(x, data);
    let ghost forcing = rhs1@;
    let ghost corner = rhs2@;
    let k1 = thomas(&a_up, &a_mid, &a_low, rhs1);
    let k2 = thomas(&a_up, &a_mid, &a_low, rhs2);
    proof {
        assert forall|j: int| 0 <= j < width implies #[trigger] k1@.column(j) == periodic_bands(
            x@,
        ).solve(periodic_forcing(x@, data@.column(j))) by {
            assert(forcing.column(j) == periodic_forcing(x@, data@.column(j)));
        }
        assert forall|j: int| 0 <= j < width implies #[trigger] k2@.column(j) == periodic_bands(
            x@,
        ).solve(periodic_corner(x@)) by {
            assert(corner.column(j) == periodic_corner(x@));
        }
    }
    let corrections = periodic_corrections(x, data, &k1, &k2);
    let mut k = NdArray::filled(data, len, T::from_u8(0));
    proof {
        assert(data@.reshaped(len) =~= data@.shape);
        crate::array::lemma_width_of_update(data@.shape, (len - 2) as usize);
    }
    let mut i: usize = 0;
    while i < len - 2
        invariant
            i <= len - 2,
            len == x.len(),
            len > 3,
            len == data@.rows(),
            width == data@.width(),
            data.wf(),
            k1.wf(),
            k2.wf(),
            k1@.rows() == len - 2,
            k2@.rows() == len - 2,
            k1@.width() == width,
            k2@.width() == width,
            corrections@.len() == width,
            forall|c: int|
                0 <= c < width ==> #[trigger] corrections@[c] == periodic_correction(
                    x@,
                    data@.column(c),
                ),
            forall|c: int|
                0 <= c < width ==> #[trigger] k1@.column(c) == periodic_bands(x@).solve(
                    periodic_forcing(x@, data@.column(c)),
                ),
            forall|c: int|
                0 <= c < width ==> #[trigger] k2@.column(c) == periodic_bands(x@).solve(
                    periodic_corner(x@),
                ),
            k.wf(),
            k@.shape == data@.shape,
            forall|r: int, c: int|
                0 <= r < i && 0 <= c < width ==> #[trigger] k@.at(r, c) == periodic_slope(
                    x@,
                    data@.column(c),
                    r,
                ),
        decreases len - i,
    {
        let mut j: usize = 0;
        while j < width
            invariant
                i < len - 2,
                j <= width,
                len == x.len(),
                len > 3,
                len == data@.rows(),
                width == data@.width(),
                data.wf(),
                k1.wf(),
                k2.wf(),
                k1@.rows() == len - 2,
                k2@.rows() == len - 2,
                k1@.width() == width,
                k2@.width() == width,
                corrections@.len() == width,
                forall|c: int|
                    0 <= c < width ==> #[trigger] corrections@[c] == periodic_correction(
                        x@,
                        data@.column(c),
                    ),
                forall|c: int|
                    0 <= c < width ==> #[trigger] k1@.column(c) == periodic_bands(x@).solve(
                        periodic_forcing(x@, data@.column(c)),
                    ),
                forall|c: int|
                    0 <= c < width ==> #[trigger] k2@.column(c) == periodic_bands(x@).solve(
                        periodic_corner(x@),
                    ),
                k.wf(),
                k@.shape == data@.shape,
                forall|r: int, c: int|
                    0 <= r < i && 0 <= c < width ==> #[trigger] k@.at(r, c) == periodic_slope(
                        x@,
                        data@.column(c),
                        r,
                    ),
                forall|c: int|
                    0 <= c < j ==> #[trigger] k@.at(i as int, c) == periodic_slope(
                        x@,
                        data@.column(c),
                        i as int,
                    ),
            decreases width - j,
        {
            let first = k1.get(i, j);
            let second = k2.get(i, j);
            proof {
                assert(k1@.column(j as int)[i as int] == k1@.at(i as int, j as int));
                assert(k2@.column(j as int)[i as int] == k2@.at(i as int, j as int));
            }
            k.set(i, j, first.plus(corrections[j].times(second)));
            j += 1;
        }
        i += 1;
    }
    let mut j: usize = 0;
    while j < width
        invariant
            j <= width,
            len == x.len(),
            len > 3,
            len == data@.rows(),
            width == data@.width(),
            data.wf(),
            corrections@.len() == width,
            forall|c: int|
                0 <= c < width ==> #[trigger] corrections@[c] == periodic_correction(
                    x@,
                    data@.column(c),
                ),
            k.wf(),
            k@.shape == data@.shape,
            forall|r: int, c: int|
                0 <= r < len - 2 && 0 <= c < width ==> #[trigger] k@.at(r, c) == periodic_slope(
                    x@,
                    data@.column(c),
                    r,
                ),
            forall|c: int|
                0 <= c < j ==> #[trigger] k@.at(len - 2, c) == periodic_correction(
                    x@,
                    data@.column(c),
                ),
            forall|c: int|
                0 <= c < j ==> #[trigger] k@.at(len - 1, c) == periodic_slope(
                    x@,
                    data@.column(c),
                    0,
                ),
        decreases width - j,
    {
        k.set(len - 2, j, corrections[j]);
        let first = k.get(0, j);
        k.set(len - 1, j, first);
        j += 1;
    }
    proof {
        assert forall|c: int| 0 <= c < width implies #[trigger] k@.column(c) == periodic_slopes(
            x@,
            data@.column(c),
        ) by {
            let y = data@.column(c);
            assert forall|r: int| 0 <= r < len implies k@.column(c)[r] == periodic_slopes(x@, y)[r] by {
                assert(k@.column(c)[r] == k@.at(r, c));
                if r < len - 2 {
                    assert(k@.at(r, c) == periodic_slope(x@, y, r));
                } else if r == len - 2 {
                    assert(k@.at(len - 2, c) == periodic_correction(x@, y));
                } else {
                    assert(k@.at(len - 1, c) == periodic_slope(x@, y, 0));
                }
            }
            assert(k@.column(c) =~= periodic_slopes(x@, data@.column(c)));
        }
    }
    k
}

} // verus!
