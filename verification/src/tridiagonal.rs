//! The solver for tridiagonal linear systems.
//!
//! A system of order `n` has the equations
//! `low[i] * k[i-1] + mid[i] * k[i] + up[i] * k[i+1] = rhs[i]`; `low[0]` and
//! `up[n-1]` take no part. It is solved by elimination without pivoting,
//! which is sound for the diagonally dominant systems that a spline gives.
//!
//! The solver is specified by what it computes, step by step, so that its
//! contract holds of rounding arithmetic too. That the result solves the
//! system where the arithmetic is exact is
//! [`lemma_thomas_solves`](crate::exact::lemma_thomas_solves).
use vstd::prelude::*;
use crate::array::NdArray;
use crate::num::SplineNum;

verus! {

/// The three bands of a tridiagonal matrix: above, on and below the diagonal,
/// each indexed by its row.
pub struct Bands<T> {
    pub up: Seq<T>,
    pub mid: Seq<T>,
    pub low: Seq<T>,
}

impl<T: SplineNum> Bands<T> {
    /// The number of equations.
    pub open spec fn order(self) -> nat {
        self.mid.len()
    }

    /// The three bands have one entry per equation, and there is an equation.
    pub open spec fn wf(self) -> bool {
        &&& self.mid.len() >= 1
        &&& self.up.len() == self.mid.len()
        &&& self.low.len() == self.mid.len()
    }

    /// The multiple of equation `i - 1` that elimination takes from equation
    /// `i`, for `i >= 1`.
    pub open spec fn factor(self, i: int) -> T
        decreases i, 0nat,
    {
        if i <= 0 {
            self.low[0]
        } else {
            self.low[i].over_spec(self.pivot(i - 1))
        }
    }

    /// The diagonal entry of equation `i` after elimination.
    pub open spec fn pivot(self, i: int) -> T
        decreases i, 1nat,
    {
        if i <= 0 {
            self.mid[0]
        } else {
            self.mid[i].minus_spec(self.factor(i).times_spec(self.up[i - 1]))
        }
    }

    /// The right-hand side of equation `i` after elimination.
    pub open spec fn reduced(self, rhs: Seq<T>, i: int) -> T
        decreases i,
    {
        if i <= 0 {
            rhs[0]
        } else {
            rhs[i].minus_spec(self.factor(i).times_spec(self.reduced(rhs, i - 1)))
        }
    }

    /// The unknown `i`, by substitution from the last equation back.
    pub open spec fn unknown(self, rhs: Seq<T>, i: int) -> T
        decreases self.order() - i,
    {
        if i >= self.order() - 1 {
            self.reduced(rhs, self.order() - 1).over_spec(self.pivot(self.order() - 1))
        } else {
            self.reduced(rhs, i).minus_spec(self.up[i].times_spec(self.unknown(rhs, i + 1))).over_spec(
                self.pivot(i),
            )
        }
    }

    /// The solution of the system with the right-hand side `rhs`.
    pub open spec fn solve(self, rhs: Seq<T>) -> Seq<T> {
        Seq::new(self.order(), |i: int| self.unknown(rhs, i))
    }
}

/// Solves one tridiagonal system for as many right-hand sides as `rhs` has
/// rows of data: the bands are shared, and every flat position of the axes
/// behind the leading one holds a right-hand side of its own.
pub fn thomas<T: SplineNum>(a_up: &Vec<T>, a_mid: &Vec<T>, a_low: &Vec<T>, rhs: NdArray<T>) -> (k:
    NdArray<T>)
    requires
        rhs.wf(),
        (Bands { up: a_up@, mid: a_mid@, low: a_low@ }).wf(),
        a_mid@.len() == rhs@.rows(),
    ensures
        k.wf(),
        k@.shape == rhs@.shape,
        forall|j: int|
            0 <= j < rhs@.width() ==> #[trigger] k@.column(j) == (Bands {
                up: a_up@,
                mid: a_mid@,
                low: a_low@,
            }).solve(rhs@.column(j)),
{
    let ghost bands = Bands { up: a_up@, mid: a_mid@, low: a_low@ };
    let ghost given = rhs@;
    let len = rhs.rows();
    let width = rhs.width();
    let mut k = rhs;
    let mut pivots: Vec<T> = Vec::with_capacity(len);
    pivots.push(a_mid[0]);
    let mut i: usize = 1;
    while i < len
        invariant
            1 <= i <= len,
            len == given.rows(),
            width == given.width(),
            bands == (Bands { up: a_up@, mid: a_mid@, low: a_low@ }),
            bands.wf(),
            bands.order() == len,
            k.wf(),
            k@.shape == given.shape,
            pivots@.len() == i,
            forall|r: int| 0 <= r < i ==> #[trigger] pivots@[r] == bands.pivot(r),
            forall|r: int, j: int|
                0 <= r < i && 0 <= j < width ==> #[trigger] k@.at(r, j) == bands.reduced(
                    given.column(j),
                    r,
                ),
            forall|r: int, j: int|
                i <= r < len && 0 <= j < width ==> #[trigger] k@.at(r, j) == given.at(r, j),
        decreases len - i,
    {
        let w = a_low[i].over(pivots[i - 1]);
        assert(w == bands.factor(i as int));
        pivots.push(a_mid[i].minus(w.times(a_up[i - 1])));
        let mut j: usize = 0;
        while j < width
            invariant
                1 <= i < len,
                j <= width,
                len == given.rows(),
                width == given.width(),
                w == bands.factor(i as int),
                k.wf(),
                k@.shape == given.shape,
                forall|r: int, c: int|
                    0 <= r < i && 0 <= c < width ==> #[trigger] k@.at(r, c) == bands.reduced(
                        given.column(c),
                        r,
                    ),
                forall|c: int|
                    0 <= c < j ==> #[trigger] k@.at(i as int, c) == bands.reduced(
                        given.column(c),
                        i as int,
                    ),
                forall|c: int| j <= c < width ==> #[trigger] k@.at(i as int, c) == given.at(i as int, c),
                forall|r: int, c: int|
                    i < r < len && 0 <= c < width ==> #[trigger] k@.at(r, c) == given.at(r, c),
            decreases width - j,
        {
            let above = k.get(i - 1, j);
            let here = k.get(i, j);
            assert(given.column(j as int)[i as int] == given.at(i as int, j as int));
            k.set(i, j, here.minus(w.times(above)));
            j += 1;
        }
        i += 1;
    }
    let last = len - 1;
    let mut j: usize = 0;
    while j < width
        invariant
            j <= width,
            last == len - 1,
            len == given.rows(),
            width == given.width(),
            bands.wf(),
            bands.order() == len,
            k.wf(),
            k@.shape == given.shape,
            pivots@.len() == len,
            forall|r: int| 0 <= r < len ==> #[trigger] pivots@[r] == bands.pivot(r),
            forall|r: int, c: int|
                0 <= r < last && 0 <= c < width ==> #[trigger] k@.at(r, c) == bands.reduced(
                    given.column(c),
                    r,
                ),
            forall|c: int|
                0 <= c < j ==> #[trigger] k@.at(last as int, c) == bands.unknown(
                    given.column(c),
                    last as int,
                ),
            forall|c: int|
                j <= c < width ==> #[trigger] k@.at(last as int, c) == bands.reduced(
                    given.column(c),
                    last as int,
                ),
        decreases width - j,
    {
        let here = k.get(last, j);
        k.set(last, j, here.over(pivots[last]));
        j += 1;
    }
    let mut i: usize = last;
    while i > 0
        invariant
            i <= last,
            last == len - 1,
            len == given.rows(),
            width == given.width(),
            bands == (Bands { up: a_up@, mid: a_mid@, low: a_low@ }),
            bands.wf(),
            bands.order() == len,
            k.wf(),
            k@.shape == given.shape,
            pivots@.len() == len,
            forall|r: int| 0 <= r < len ==> #[trigger] pivots@[r] == bands.pivot(r),
            forall|r: int, c: int|
                0 <= r < i && 0 <= c < width ==> #[trigger] k@.at(r, c) == bands.reduced(
                    given.column(c),
                    r,
                ),
            forall|r: int, c: int|
                i <= r < len && 0 <= c < width ==> #[trigger] k@.at(r, c) == bands.unknown(
                    given.column(c),
                    r,
                ),
        decreases i,
    {
        i -= 1;
        let mut j: usize = 0;
        while j < width
            invariant
                i < last,
                j <= width,
                last == len - 1,
                len == given.rows(),
                width == given.width(),
                bands == (Bands { up: a_up@, mid: a_mid@, low: a_low@ }),
                bands.wf(),
                bands.order() == len,
                k.wf(),
                k@.shape == given.shape,
                pivots@.len() == len,
                forall|r: int| 0 <= r < len ==> #[trigger] pivots@[r] == bands.pivot(r),
                forall|r: int, c: int|
                    0 <= r < i && 0 <= c < width ==> #[trigger] k@.at(r, c) == bands.reduced(
                        given.column(c),
                        r,
                    ),
                forall|c: int|
                    0 <= c < j ==> #[trigger] k@.at(i as int, c) == bands.unknown(
                        given.column(c),
                        i as int,
                    ),
                forall|c: int|
                    j <= c < width ==> #[trigger] k@.at(i as int, c) == bands.reduced(
                        given.column(c),
                        i as int,
                    ),
                forall|r: int, c: int|
                    i < r < len && 0 <= c < width ==> #[trigger] k@.at(r, c) == bands.unknown(
                        given.column(c),
                        r,
                    ),
            decreases width - j,
        {
            let here = k.get(i, j);
            let right = k.get(i + 1, j);
            k.set(i, j, here.minus(a_up[i].times(right)).over(pivots[i]));
            j += 1;
        }
    }
    proof {
        assert forall|j: int| 0 <= j < given.width() implies #[trigger] k@.column(j)
            == bands.solve(given.column(j)) by {
            assert(k@.column(j) =~= bands.solve(given.column(j)));
        }
    }
    k
}

} // verus!
