//! What the fitted splines are where the arithmetic of the elements is
//! exact.
//!
//! The contracts of this crate hold of any arithmetic, rounding included,
//! and therefore say what is computed, operation by operation. Where the
//! elements form an ordered field, what is computed is what it is meant to
//! be: the solver solves its equations, a first derivative given at an end
//! is the slope there, and the spline passes through its samples.
use vstd::prelude::*;
use crate::array::NdSpec;
use crate::axis::{bisect, in_range, lemma_bisect, segment};
use crate::boundary::{InternalBoundary, SingleBoundary};
use crate::cubic_spline::{cubic, position, slopes, CubicSplineStrategy};
use crate::laws::{lemma_first_derivative_left, lemma_first_derivative_right};
use crate::num;
use crate::num::SplineNum;
use crate::system::{dx, left_rhs, mixed_bands, mixed_rhs, right_rhs};
use crate::tridiagonal::Bands;

verus! {

/// The laws of a field, as far as they are used: addition and multiplication
/// are commutative and associative, multiplication distributes over
/// addition, 0 and 1 differ and are neutral, and subtraction and division
/// undo addition and multiplication.
#[verifier::opaque]
pub open spec fn field_laws<T: SplineNum>() -> bool {
    &&& num::one::<T>() != num::zero::<T>()
    &&& forall|a: T, b: T| #[trigger] a.plus_spec(b) == b.plus_spec(a)
    &&& forall|a: T, b: T, c: T| #[trigger]
        a.plus_spec(b).plus_spec(c) == a.plus_spec(b.plus_spec(c))
    &&& forall|a: T| #[trigger] a.plus_spec(num::zero::<T>()) == a
    &&& forall|a: T, b: T| #[trigger] a.minus_spec(b).plus_spec(b) == a
    &&& forall|a: T, b: T| #[trigger] a.plus_spec(b).minus_spec(b) == a
    &&& forall|a: T, b: T| #[trigger] a.times_spec(b) == b.times_spec(a)
    &&& forall|a: T, b: T, c: T| #[trigger]
        a.times_spec(b).times_spec(c) == a.times_spec(b.times_spec(c))
    &&& forall|a: T, b: T, c: T| #[trigger]
        a.times_spec(b.plus_spec(c)) == a.times_spec(b).plus_spec(a.times_spec(c))
    &&& forall|a: T| #[trigger] a.times_spec(num::one::<T>()) == a
    &&& forall|a: T| #[trigger] a.times_spec(num::zero::<T>()) == num::zero::<T>()
    &&& forall|a: T, b: T|
        b != num::zero::<T>() ==> #[trigger] a.over_spec(b).times_spec(b) == a
    &&& forall|a: T, b: T|
        b != num::zero::<T>() ==> #[trigger] a.times_spec(b).over_spec(b) == a
}

/// Addition is commutative.
pub proof fn law_plus_commutes<T: SplineNum>(a: T, b: T)
    requires
        field_laws::<T>(),
    ensures
        a.plus_spec(b) == b.plus_spec(a),
{
    reveal(field_laws);
}

/// Addition is associative.
pub proof fn law_plus_associates<T: SplineNum>(a: T, b: T, c: T)
    requires
        field_laws::<T>(),
    ensures
        a.plus_spec(b).plus_spec(c) == a.plus_spec(b.plus_spec(c)),
{
    reveal(field_laws);
}

/// Adding 0 changes nothing.
pub proof fn law_plus_zero<T: SplineNum>(a: T)
    requires
        field_laws::<T>(),
    ensures
        a.plus_spec(num::zero::<T>()) == a,
        num::zero::<T>().plus_spec(a) == a,
{
    reveal(field_laws);
}

/// Subtraction undoes addition, and addition subtraction.
pub proof fn law_minus<T: SplineNum>(a: T, b: T)
    requires
        field_laws::<T>(),
    ensures
        a.minus_spec(b).plus_spec(b) == a,
        a.plus_spec(b).minus_spec(b) == a,
{
    reveal(field_laws);
}

/// Multiplication is commutative.
pub proof fn law_times_commutes<T: SplineNum>(a: T, b: T)
    requires
        field_laws::<T>(),
    ensures
        a.times_spec(b) == b.times_spec(a),
{
    reveal(field_laws);
}

/// Multiplication is associative.
pub proof fn law_times_associates<T: SplineNum>(a: T, b: T, c: T)
    requires
        field_laws::<T>(),
    ensures
        a.times_spec(b).times_spec(c) == a.times_spec(b.times_spec(c)),
{
    reveal(field_laws);
}

/// Multiplication distributes over addition.
pub proof fn law_distributes<T: SplineNum>(a: T, b: T, c: T)
    requires
        field_laws::<T>(),
    ensures
        a.times_spec(b.plus_spec(c)) == a.times_spec(b).plus_spec(a.times_spec(c)),
        b.plus_spec(c).times_spec(a) == b.times_spec(a).plus_spec(c.times_spec(a)),
{
    reveal(field_laws);
}

/// Multiplying by 1 changes nothing, and multiplying by 0 gives 0.
pub proof fn law_times_one_and_zero<T: SplineNum>(a: T)
    requires
        field_laws::<T>(),
    ensures
        a.times_spec(num::one::<T>()) == a,
        num::one::<T>().times_spec(a) == a,
        a.times_spec(num::zero::<T>()) == num::zero::<T>(),
        num::zero::<T>().times_spec(a) == num::zero::<T>(),
{
    reveal(field_laws);
}

/// Division undoes multiplication, and multiplication division, but for a
/// divisor of 0.
pub proof fn law_over<T: SplineNum>(a: T, b: T)
    requires
        field_laws::<T>(),
        b != num::zero::<T>(),
    ensures
        a.over_spec(b).times_spec(b) == a,
        a.times_spec(b).over_spec(b) == a,
{
    reveal(field_laws);
}

/// Subtracting a value from itself gives 0, and subtracting 0 changes
/// nothing.
pub proof fn law_minus_self_and_zero<T: SplineNum>(a: T)
    requires
        field_laws::<T>(),
    ensures
        a.minus_spec(a) == num::zero::<T>(),
        a.minus_spec(num::zero::<T>()) == a,
{
    let zero = num::zero::<T>();
    // (0 + a) - a is 0, and 0 + a is a.
    law_minus(zero, a);
    law_plus_zero(a);
    // (a + 0) - 0 is a, and a + 0 is a.
    law_minus(a, zero);
}

/// Two values whose difference is 0 are the same.
pub proof fn law_difference_zero<T: SplineNum>(a: T, b: T)
    requires
        field_laws::<T>(),
        a.minus_spec(b) == num::zero::<T>(),
    ensures
        a == b,
{
    law_minus(a, b);
    law_plus_zero(b);
}

/// Dividing by 1 changes nothing; 0 over a divisor other than 0 is 0, and a
/// value other than 0 over itself is 1.
pub proof fn law_over_one_zero_self<T: SplineNum>(a: T)
    requires
        field_laws::<T>(),
    ensures
        a.over_spec(num::one::<T>()) == a,
        a != num::zero::<T>() ==> num::zero::<T>().over_spec(a) == num::zero::<T>(),
        a != num::zero::<T>() ==> a.over_spec(a) == num::one::<T>(),
{
    let zero = num::zero::<T>();
    let one = num::one::<T>();
    law_times_one_and_zero(a);
    assert(one != zero) by {
        reveal(field_laws);
    }
    // (a * 1) / 1 is a.
    law_over(a, one);
    if a != zero {
        // (0 * a) / a is 0, and (1 * a) / a is 1.
        law_over(zero, a);
        law_over(one, a);
    }
}

/// What equation `i` of the system makes of the values `k`: the sum of the
/// entries of its row, each times the value of its column.
pub open spec fn row_value<T: SplineNum>(bands: Bands<T>, k: Seq<T>, i: int) -> T {
    let n = bands.order() as int;
    let on = bands.mid[i].times_spec(k[i]);
    if n == 1 {
        on
    } else if i == 0 {
        on.plus_spec(bands.up[i].times_spec(k[i + 1]))
    } else if i == n - 1 {
        bands.low[i].times_spec(k[i - 1]).plus_spec(on)
    } else {
        bands.low[i].times_spec(k[i - 1]).plus_spec(on).plus_spec(bands.up[i].times_spec(k[i + 1]))
    }
}

/// Whether elimination divides by no 0.
pub open spec fn pivots_hold<T: SplineNum>(bands: Bands<T>) -> bool {
    forall|i: int| 0 <= i < bands.order() ==> #[trigger] bands.pivot(i) != num::zero::<T>()
}

/// What equation `i` makes of the solution after elimination: its pivot
/// times its unknown, and but for the last equation the entry above the
/// diagonal times the next unknown. It is the reduced right-hand side.
proof fn lemma_reduced_equation<T: SplineNum>(bands: Bands<T>, rhs: Seq<T>, i: int)
    requires
        field_laws::<T>(),
        bands.wf(),
        pivots_hold(bands),
        0 <= i < bands.order(),
    ensures
        i == bands.order() - 1 ==> bands.pivot(i).times_spec(bands.unknown(rhs, i))
            == bands.reduced(rhs, i),
        i < bands.order() - 1 ==> bands.pivot(i).times_spec(bands.unknown(rhs, i)).plus_spec(
            bands.up[i].times_spec(bands.unknown(rhs, i + 1)),
        ) == bands.reduced(rhs, i),
{
    let p = bands.pivot(i);
    let k = bands.unknown(rhs, i);
    let r = bands.reduced(rhs, i);
    assert(p != num::zero::<T>());
    law_times_commutes(p, k);
    if i == bands.order() - 1 {
        law_over(r, p);
    } else {
        let next = bands.up[i].times_spec(bands.unknown(rhs, i + 1));
        law_over(r.minus_spec(next), p);
        law_minus(r, next);
    }
}

/// The algebra of one step of elimination, undone: where `f` times the
/// equation before has been taken from an equation, putting it back gives
/// the equation as it was.
proof fn lemma_restore<T: SplineNum>(
    f: T,
    pivot_before: T,
    up_before: T,
    reduced_before: T,
    k_before: T,
    pivot: T,
    k: T,
    rest: T,
    reduced: T,
)
    requires
        field_laws::<T>(),
        pivot_before.times_spec(k_before).plus_spec(up_before.times_spec(k)) == reduced_before,
        pivot.times_spec(k).plus_spec(rest) == reduced,
    ensures
        f.times_spec(pivot_before).times_spec(k_before).plus_spec(
            pivot.plus_spec(f.times_spec(up_before)).times_spec(k),
        ).plus_spec(rest) == reduced.plus_spec(f.times_spec(reduced_before)),
{
    let a = pivot_before.times_spec(k_before);
    let b = up_before.times_spec(k);
    let fa = f.times_spec(a);
    let fb = f.times_spec(b);
    let pk = pivot.times_spec(k);
    // f * p' * k' is f * (p' * k').
    law_times_associates(f, pivot_before, k_before);
    // (p + f * u') * k is p * k + f * (u' * k).
    law_distributes(k, pivot, f.times_spec(up_before));
    law_times_associates(f, up_before, k);
    assert(pivot.plus_spec(f.times_spec(up_before)).times_spec(k) == pk.plus_spec(fb));
    // f * (p' * k') + f * (u' * k) is f * r'.
    law_distributes(f, a, b);
    assert(fa.plus_spec(fb) == f.times_spec(reduced_before));
    // fa + (pk + fb) + rest is (pk + rest) + (fa + fb).
    law_plus_commutes(pk, fb);
    law_plus_associates(fa, fb, pk);
    assert(fa.plus_spec(pk.plus_spec(fb)) == fa.plus_spec(fb).plus_spec(pk));
    law_plus_associates(fa.plus_spec(fb), pk, rest);
    law_plus_commutes(fa.plus_spec(fb), pk.plus_spec(rest));
}

/// Where the arithmetic is exact and elimination divides by no 0, the
/// solver solves the system: the solution meets every equation.
pub proof fn lemma_thomas_solves<T: SplineNum>(bands: Bands<T>, rhs: Seq<T>, i: int)
    requires
        field_laws::<T>(),
        bands.wf(),
        rhs.len() == bands.order(),
        pivots_hold(bands),
        0 <= i < bands.order(),
    ensures
        row_value(bands, bands.solve(rhs), i) == rhs[i],
{
    let n = bands.order() as int;
    let k = bands.solve(rhs);
    let zero = num::zero::<T>();
    assert(k[i] == bands.unknown(rhs, i));
    lemma_reduced_equation(bands, rhs, i);
    if i == 0 {
        assert(bands.pivot(0) == bands.mid[0]);
        assert(bands.reduced(rhs, 0) == rhs[0]);
        if n > 1 {
            assert(k[1] == bands.unknown(rhs, 1));
        }
    } else {
        assert(k[i - 1] == bands.unknown(rhs, i - 1));
        lemma_reduced_equation(bands, rhs, i - 1);
        let f = bands.factor(i);
        let before = bands.pivot(i - 1);
        assert(before != zero);
        // The entries of the equation, from what elimination made of them.
        law_over(bands.low[i], before);
        assert(bands.low[i] == f.times_spec(before));
        law_minus(bands.mid[i], f.times_spec(bands.up[i - 1]));
        assert(bands.mid[i] == bands.pivot(i).plus_spec(f.times_spec(bands.up[i - 1])));
        law_minus(rhs[i], f.times_spec(bands.reduced(rhs, i - 1)));
        assert(rhs[i] == bands.reduced(rhs, i).plus_spec(f.times_spec(bands.reduced(rhs, i - 1))));
        if i == n - 1 {
            let pk = bands.pivot(i).times_spec(k[i]);
            law_plus_zero(pk);
            lemma_restore(
                f,
                before,
                bands.up[i - 1],
                bands.reduced(rhs, i - 1),
                k[i - 1],
                bands.pivot(i),
                k[i],
                zero,
                bands.reduced(rhs, i),
            );
            law_plus_zero(
                bands.low[i].times_spec(k[i - 1]).plus_spec(bands.mid[i].times_spec(k[i])),
            );
        } else {
            assert(k[i + 1] == bands.unknown(rhs, i + 1));
            lemma_restore(
                f,
                before,
                bands.up[i - 1],
                bands.reduced(rhs, i - 1),
                k[i - 1],
                bands.pivot(i),
                k[i],
                bands.up[i].times_spec(k[i + 1]),
                bands.reduced(rhs, i),
            );
        }
    }
}

/// The laws of an order: every value is at most itself, at most is
/// transitive, and two values that are at most each other are the same.
#[verifier::opaque]
pub open spec fn order_laws<T: SplineNum>() -> bool {
    &&& forall|a: T| #[trigger] a.at_most_spec(a)
    &&& forall|a: T, b: T, c: T|
        #[trigger] a.at_most_spec(b) && #[trigger] b.at_most_spec(c) ==> a.at_most_spec(c)
    &&& forall|a: T, b: T| #[trigger] a.at_most_spec(b) && b.at_most_spec(a) ==> a == b
}

/// Whether every coordinate is at most the next and differs from it.
pub open spec fn increasing<T: SplineNum>(x: Seq<T>) -> bool {
    forall|i: int|
        0 <= i < x.len() - 1 ==> (#[trigger] x[i]).at_most_spec(x[i + 1]) && x[i] != x[i + 1]
}

/// Increasing coordinates are in order: an earlier one is at most a later
/// one, and no later one is at most an earlier one.
pub proof fn lemma_in_order<T: SplineNum>(x: Seq<T>, a: int, b: int)
    requires
        order_laws::<T>(),
        increasing(x),
        0 <= a <= b < x.len(),
    ensures
        x[a].at_most_spec(x[b]),
        a < b ==> !x[b].at_most_spec(x[a]),
    decreases b - a,
{
    reveal(order_laws);
    if a < b {
        lemma_in_order(x, a, b - 1);
        assert(x[b - 1].at_most_spec(x[b]) && x[b - 1] != x[b]);
        assert(x[a].at_most_spec(x[b]));
        if x[b].at_most_spec(x[a]) {
            assert(x[b].at_most_spec(x[b - 1]));
        }
    }
}

/// A query on a coordinate is in range, and its segment is the one that
/// starts there: the last segment for the last coordinate, where none
/// starts.
pub proof fn lemma_segment_of_sample<T: SplineNum>(x: Seq<T>, m: int)
    requires
        order_laws::<T>(),
        increasing(x),
        x.len() >= 2,
        0 <= m < x.len(),
    ensures
        in_range(x, x[m]),
        segment(x, x[m]) == if m == x.len() - 1 {
            x.len() - 2
        } else {
            m
        },
{
    let n = x.len() as int;
    lemma_in_order(x, 0, m);
    lemma_in_order(x, m, n - 1);
    if m < n - 1 {
        let i = bisect(x, x[m], 0, n - 1);
        lemma_bisect(x, x[m], 0, n - 1);
        if i > m {
            lemma_in_order(x, m, i);
        } else if i < m {
            lemma_in_order(x, i + 1, m);
        }
    }
}

/// Where the arithmetic is exact, the cubic of a segment takes the value of
/// the left sample at position 0 and that of the right sample at position
/// 1, whatever the coefficients.
pub proof fn lemma_cubic_at_ends<T: SplineNum>(y_left: T, y_right: T, a: T, b: T)
    requires
        field_laws::<T>(),
    ensures
        cubic(num::zero::<T>(), y_left, y_right, a, b) == y_left,
        cubic(num::one::<T>(), y_left, y_right, a, b) == y_right,
{
    let zero = num::zero::<T>();
    let one = num::one::<T>();
    law_minus_self_and_zero(one);
    law_times_one_and_zero(y_left);
    law_times_one_and_zero(y_right);
    law_times_one_and_zero(one);
    law_times_one_and_zero(zero);
    law_times_one_and_zero(a.times_spec(one).plus_spec(b.times_spec(zero)));
    law_times_one_and_zero(a.times_spec(zero).plus_spec(b.times_spec(one)));
    law_plus_zero(y_left);
    law_plus_zero(y_right);
}

/// Where the arithmetic is exact and the coordinates increase, the spline
/// passes through its samples: a query on a coordinate is answered, for
/// every row of data, by the sample there. This holds of any coefficients,
/// and so under every boundary condition.
pub proof fn lemma_samples_reproduced<T: SplineNum>(
    spline: CubicSplineStrategy<T>,
    x: Seq<T>,
    data: NdSpec<T>,
    m: int,
    j: int,
)
    requires
        field_laws::<T>(),
        order_laws::<T>(),
        increasing(x),
        x.len() >= 2,
        0 <= m < x.len(),
    ensures
        spline.accepts(x, x[m]),
        spline.value(x, data, x[m], j) == data.at(m, j),
{
    let n = x.len() as int;
    let zero = num::zero::<T>();
    lemma_segment_of_sample(x, m);
    let i = segment(x, x[m]);
    assert(spline.effective_query(x, x[m]) == x[m]);
    let step = x[i + 1].minus_spec(x[i]);
    assert(step != zero) by {
        if step == zero {
            law_difference_zero(x[i + 1], x[i]);
        }
    }
    if m == n - 1 {
        law_over_one_zero_self(step);
    } else {
        law_minus_self_and_zero(x[m]);
        law_over_one_zero_self(step);
    }
    lemma_cubic_at_ends(data.at(i, j), data.at(i + 1, j), spline.a@.at(i, j), spline.b@.at(i, j));
}

/// Where the arithmetic is exact, a first derivative given on the left is
/// the slope at the first coordinate.
pub proof fn lemma_first_derivative_met_left<T: SplineNum>(
    x: Seq<T>,
    y: Seq<T>,
    derivative: T,
    right: SingleBoundary<T>,
)
    requires
        field_laws::<T>(),
        x.len() >= 3,
    ensures
        slopes(
            x,
            y,
            InternalBoundary::Mixed { left: SingleBoundary::FirstDeriv(derivative), right },
        )[0] == derivative,
{
    let k = slopes(
        x,
        y,
        InternalBoundary::Mixed { left: SingleBoundary::FirstDeriv(derivative), right },
    );
    lemma_first_derivative_left(x, y, derivative, right);
    law_times_one_and_zero(k[1]);
    law_minus_self_and_zero(derivative);
    law_over_one_zero_self(derivative);
}

/// Where the arithmetic is exact and elimination divides by no 0, a first
/// derivative given on the right is the slope at the last coordinate.
pub proof fn lemma_first_derivative_met_right<T: SplineNum>(
    x: Seq<T>,
    y: Seq<T>,
    left: SingleBoundary<T>,
    derivative: T,
)
    requires
        field_laws::<T>(),
        x.len() >= 3,
        pivots_hold(mixed_bands(x, left.specialized(), SingleBoundary::FirstDeriv(derivative))),
    ensures
        slopes(
            x,
            y,
            InternalBoundary::Mixed { left, right: SingleBoundary::FirstDeriv(derivative) },
        )[x.len() - 1] == derivative,
{
    let n = x.len() as int;
    let one = num::one::<T>();
    let right = SingleBoundary::FirstDeriv(derivative);
    let bands = mixed_bands(x, left.specialized(), right);
    let rhs = mixed_rhs(x, y, left.specialized(), right);
    lemma_first_derivative_right(x, y, left, derivative);
    assert(bands.pivot(n - 2) != num::zero::<T>());
    law_over_one_zero_self(bands.pivot(n - 2));
    law_times_one_and_zero(bands.reduced(rhs, n - 2));
    law_times_one_and_zero(bands.up[n - 2]);
    law_minus_self_and_zero(derivative);
    law_minus_self_and_zero(one);
    law_over_one_zero_self(derivative);
}

/// Where the arithmetic is exact and elimination divides by no 0, the
/// slopes under a second derivative given on the left meet the equation of
/// that derivative: twice the first slope and once the second, times the
/// length of the first segment, are three times the rise over that segment
/// less half the derivative times the square of its length.
pub proof fn lemma_second_derivative_met_left<T: SplineNum>(
    x: Seq<T>,
    y: Seq<T>,
    derivative: T,
    right: SingleBoundary<T>,
)
    requires
        field_laws::<T>(),
        x.len() >= 3,
        y.len() == x.len(),
        pivots_hold(mixed_bands(x, SingleBoundary::SecondDeriv(derivative), right.specialized())),
    ensures
        ({
            let left = SingleBoundary::SecondDeriv(derivative);
            let k = slopes(x, y, InternalBoundary::Mixed { left, right });
            num::two::<T>().times_spec(dx(x, 0)).times_spec(k[0]).plus_spec(
                dx(x, 0).times_spec(k[1]),
            ) == left_rhs(x, y, left)
        }),
{
    let left = SingleBoundary::SecondDeriv(derivative);
    let bands = mixed_bands(x, left, right.specialized());
    let rhs = mixed_rhs(x, y, left, right.specialized());
    lemma_thomas_solves(bands, rhs, 0);
}

/// Where the arithmetic is exact and elimination divides by no 0, the
/// slopes under a second derivative given on the right meet the equation of
/// that derivative: once the slope before the last and twice the last,
/// times the length of the last segment, are three times the rise over that
/// segment and half the derivative times the square of its length.
pub proof fn lemma_second_derivative_met_right<T: SplineNum>(
    x: Seq<T>,
    y: Seq<T>,
    left: SingleBoundary<T>,
    derivative: T,
)
    requires
        field_laws::<T>(),
        x.len() >= 3,
        y.len() == x.len(),
        pivots_hold(mixed_bands(x, left.specialized(), SingleBoundary::SecondDeriv(derivative))),
    ensures
        ({
            let n = x.len() as int;
            let right = SingleBoundary::SecondDeriv(derivative);
            let k = slopes(x, y, InternalBoundary::Mixed { left, right });
            dx(x, n - 2).times_spec(k[n - 2]).plus_spec(
                num::two::<T>().times_spec(dx(x, n - 2)).times_spec(k[n - 1]),
            ) == right_rhs(x, y, right)
        }),
{
    let n = x.len() as int;
    let right = SingleBoundary::SecondDeriv(derivative);
    let bands = mixed_bands(x, left.specialized(), right);
    let rhs = mixed_rhs(x, y, left.specialized(), right);
    lemma_thomas_solves(bands, rhs, n - 1);
}

} // verus!
