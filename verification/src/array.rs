//! An n-dimensional array stored row-major, with the interpolation axis first.
use vstd::prelude::*;

verus! {

/// The number of elements of an array of the given shape: the product of the
/// axis lengths, 1 for no axis at all.
pub open spec fn volume(shape: Seq<usize>) -> nat
    decreases shape.len(),
{
    if shape.len() == 0 {
        1
    } else {
        volume(shape.drop_last()) * (shape.last() as nat)
    }
}

/// The mathematical value of an [`NdArray`]: its shape and its elements in
/// row-major order.
pub struct NdSpec<E> {
    pub shape: Seq<usize>,
    pub values: Seq<E>,
}

impl<E> NdSpec<E> {
    /// The length of the leading axis.
    pub open spec fn rows(self) -> nat {
        self.shape[0] as nat
    }

    /// The number of independent rows of data: the product of the lengths of
    /// all axes but the leading one.
    pub open spec fn width(self) -> nat {
        volume(self.shape.skip(1))
    }

    /// There is a leading axis, the elements fill the shape, and their
    /// number can be indexed.
    pub open spec fn wf(self) -> bool {
        &&& self.shape.len() >= 1
        &&& self.width() <= usize::MAX
        &&& self.values.len() == self.rows() * self.width()
        &&& self.values.len() <= usize::MAX
    }

    /// The element at position `i` of the leading axis and flat position `j`
    /// of the remaining axes.
    pub open spec fn at(self, i: int, j: int) -> E {
        self.values[i * self.width() + j]
    }

    /// The elements along the leading axis at flat position `j` of the
    /// remaining axes.
    pub open spec fn column(self, j: int) -> Seq<E> {
        Seq::new(self.rows(), |i: int| self.at(i, j))
    }

    /// The elements across the remaining axes at position `i` of the leading
    /// axis.
    pub open spec fn row(self, i: int) -> Seq<E> {
        Seq::new(self.width(), |j: int| self.at(i, j))
    }

    /// The shape with the leading axis set to `rows`.
    pub open spec fn reshaped(self, rows: usize) -> Seq<usize> {
        self.shape.update(0, rows)
    }
}

/// The flat index of `(i, j)` lies inside an array of `rows * width` elements.
pub proof fn lemma_flat_index(i: int, j: int, rows: int, width: int)
    requires
        0 <= i < rows,
        0 <= j < width,
    ensures
        0 <= i * width + j < rows * width,
        i * width + j < (i + 1) * width,
        (i + 1) * width <= rows * width,
{
    assert(i * width >= 0) by (nonlinear_arith)
        requires
            i >= 0,
            width > 0,
    ;
    assert((i + 1) * width == i * width + width) by (nonlinear_arith);
    assert((i + 1) * width <= rows * width) by (nonlinear_arith)
        requires
            i + 1 <= rows,
            width > 0,
    ;
}

/// Two positions with the same flat index are the same position.
pub proof fn lemma_flat_index_injective(i1: int, j1: int, i2: int, j2: int, width: int)
    requires
        0 <= j1 < width,
        0 <= j2 < width,
        0 <= i1,
        0 <= i2,
        i1 * width + j1 == i2 * width + j2,
    ensures
        i1 == i2,
        j1 == j2,
{
    if i1 < i2 {
        assert((i1 + 1) * width <= i2 * width) by (nonlinear_arith)
            requires
                i1 + 1 <= i2,
                width > 0,
        ;
        assert((i1 + 1) * width == i1 * width + width) by (nonlinear_arith);
    } else if i2 < i1 {
        assert((i2 + 1) * width <= i1 * width) by (nonlinear_arith)
            requires
                i2 + 1 <= i1,
                width > 0,
        ;
        assert((i2 + 1) * width == i2 * width + width) by (nonlinear_arith);
    }
}

/// Two arrays of one shape that agree at every position are the same array.
pub proof fn lemma_same_array<E>(a: NdSpec<E>, b: NdSpec<E>)
    requires
        a.wf(),
        b.wf(),
        a.shape == b.shape,
        forall|i: int, j: int|
            0 <= i < a.rows() && 0 <= j < a.width() ==> #[trigger] a.at(i, j) == b.at(i, j),
    ensures
        a == b,
{
    let width = a.width() as int;
    assert forall|n: int| 0 <= n < a.values.len() implies a.values[n] == b.values[n] by {
        assert(width > 0) by {
            if width == 0 {
                assert(a.rows() * 0 == 0) by (nonlinear_arith);
            }
        }
        let i = n / width;
        let j = n % width;
        assert(n == i * width + j && 0 <= j < width && 0 <= i) by (nonlinear_arith)
            requires
                i == n / width,
                j == n % width,
                width > 0,
                n >= 0,
        ;
        if i >= a.rows() {
            assert(i * width >= a.rows() * width) by (nonlinear_arith)
                requires
                    i >= a.rows(),
                    width > 0,
            ;
        }
        assert(a.at(i, j) == b.at(i, j));
    }
    assert(a.values =~= b.values);
}

/// An array of one axis has one row of data, which holds all its elements.
pub proof fn lemma_one_axis<E>(a: NdSpec<E>)
    requires
        a.wf(),
        a.shape.len() == 1,
    ensures
        a.width() == 1,
        a.column(0) == a.values,
{
    assert(a.shape.skip(1).len() == 0);
    assert(volume(a.shape.skip(1)) == 1);
    assert(a.rows() * 1 == a.rows()) by (nonlinear_arith);
    assert forall|i: int| 0 <= i < a.rows() implies a.column(0)[i] == a.values[i] by {
        assert(i * 1 + 0 == i) by (nonlinear_arith);
    }
    assert(a.column(0) =~= a.values);
}

/// The width of an array does not depend on the length of its leading axis.
pub proof fn lemma_width_of_update(shape: Seq<usize>, rows: usize)
    requires
        shape.len() >= 1,
    ensures
        shape.update(0, rows).skip(1) == shape.skip(1),
{
    assert(shape.update(0, rows).skip(1) =~= shape.skip(1));
}

/// Where no axis is empty, the volume of a prefix is at most that of the
/// whole shape, and at least 1.
proof fn lemma_volume_prefix(shape: Seq<usize>, n: int)
    requires
        0 <= n <= shape.len(),
        forall|k: int| 0 <= k < shape.len() ==> shape[k] >= 1,
    ensures
        1 <= volume(shape.take(n)) <= volume(shape),
    decreases shape.len() - n,
{
    lemma_volume_positive(shape.take(n));
    if n == shape.len() {
        assert(shape.take(n) == shape);
    } else {
        lemma_volume_prefix(shape, n + 1);
        let next = shape.take(n + 1);
        assert(next.drop_last() == shape.take(n));
        assert(next.last() == shape[n]);
        let v = volume(shape.take(n));
        let f = shape[n] as nat;
        assert(volume(next) == v * f);
        assert(v <= v * f) by (nonlinear_arith)
            requires
                f >= 1,
                v >= 0,
        ;
    }
}

/// Where no axis is empty, the volume is at least 1.
proof fn lemma_volume_positive(shape: Seq<usize>)
    requires
        forall|k: int| 0 <= k < shape.len() ==> shape[k] >= 1,
    ensures
        volume(shape) >= 1,
    decreases shape.len(),
{
    if shape.len() > 0 {
        lemma_volume_positive(shape.drop_last());
        let v = volume(shape.drop_last());
        let f = shape.last() as nat;
        assert(v * f >= 1) by (nonlinear_arith)
            requires
                v >= 1,
                f >= 1,
        ;
    }
}

/// Where an axis is empty, the volume is 0.
proof fn lemma_volume_zero(shape: Seq<usize>, k: int)
    requires
        0 <= k < shape.len(),
        shape[k] == 0,
    ensures
        volume(shape) == 0,
    decreases shape.len(),
{
    if k == shape.len() - 1 {
        assert(volume(shape.drop_last()) * 0 == 0) by (nonlinear_arith);
    } else {
        lemma_volume_zero(shape.drop_last(), k);
        assert(0 * (shape.last() as nat) == 0) by (nonlinear_arith);
    }
}

/// The product of the axis lengths of `shape` from axis `from` on, or `None`
/// where it does not fit.
fn checked_volume(shape: &Vec<usize>, from: usize) -> (r: Option<usize>)
    requires
        from <= shape.len(),
    ensures
        r matches Some(v) ==> v == volume(shape@.skip(from as int)),
        r is None ==> volume(shape@.skip(from as int)) > usize::MAX,
{
    let ghost tail = shape@.skip(from as int);
    let mut k: usize = from;
    while k < shape.len()
        invariant
            from <= k <= shape.len(),
            tail == shape@.skip(from as int),
            forall|m: int| from <= m < k ==> shape[m] >= 1,
        decreases shape.len() - k,
    {
        if shape[k] == 0 {
            proof {
                lemma_volume_zero(tail, k - from);
            }
            return Some(0);
        }
        k += 1;
    }
    let mut acc: usize = 1;
    let mut i: usize = from;
    assert(tail.take(0).len() == 0);
    while i < shape.len()
        invariant
            from <= i <= shape.len(),
            tail == shape@.skip(from as int),
            forall|m: int| 0 <= m < tail.len() ==> tail[m] >= 1,
            acc == volume(tail.take(i - from)),
        decreases shape.len() - i,
    {
        let ghost next = tail.take(i - from + 1);
        proof {
            assert(next.drop_last() == tail.take(i - from));
            assert(next.last() == shape[i as int]);
            lemma_volume_prefix(tail, i - from + 1);
        }
        match acc.checked_mul(shape[i]) {
            Some(p) => {
                acc = p;
            },
            None => {
                return None;
            },
        }
        i += 1;
    }
    assert(tail.take(tail.len() as int) == tail);
    Some(acc)
}

/// An n-dimensional array with at least one axis. The leading axis runs along
/// the interpolation coordinates; the elements are stored row-major, so that
/// each position of the leading axis holds `width` consecutive elements.
#[derive(Debug, Clone, PartialEq, Eq)]
pub struct NdArray<E> {
    shape: Vec<usize>,
    width: usize,
    values: Vec<E>,
}

impl<E> View for NdArray<E> {
    type V = NdSpec<E>;

    closed spec fn view(&self) -> NdSpec<E> {
        NdSpec { shape: self.shape@, values: self.values@ }
    }
}

impl<E> NdArray<E> {
    /// The width that the array keeps beside its shape.
    pub closed spec fn cached_width(&self) -> nat {
        self.width as nat
    }

    /// The array is well formed: its elements fill its shape.
    pub open spec fn wf(&self) -> bool {
        &&& self@.wf()
        &&& self.cached_width() == self@.width()
    }

    /// Builds an array from its shape and its elements in row-major order.
    /// It is `None` where there is no axis, where the elements do not fill
    /// the shape, or where the shape is too large to index.
    pub fn from_shape_vec(shape: Vec<usize>, values: Vec<E>) -> (r: Option<Self>)
        ensures
            r is Some <==> (NdSpec { shape: shape@, values: values@ }).wf(),
            r matches Some(a) ==> a.wf() && a@.shape == shape@ && a@.values == values@,
    {
        if shape.len() == 0 {
            return None;
        }
        let width = match checked_volume(&shape, 1) {
            Some(w) => w,
            None => {
                return None;
            },
        };
        let ghost model = NdSpec { shape: shape@, values: values@ };
        assert(model.width() == width);
        assert(values.len() == values@.len());
        let total = match shape[0].checked_mul(width) {
            Some(t) => t,
            None => {
                assert(model.rows() * model.width() > usize::MAX);
                return None;
            },
        };
        assert(total == model.rows() * model.width());
        if total != values.len() {
            return None;
        }
        Some(NdArray { shape, width, values })
    }

    /// The axis lengths.
    pub fn shape(&self) -> (r: &Vec<usize>)
        ensures
            r@ == self@.shape,
    {
        &self.shape
    }

    /// The elements in row-major order.
    pub fn values(&self) -> (r: &Vec<E>)
        ensures
            r@ == self@.values,
    {
        &self.values
    }

    /// The length of the leading axis.
    pub fn rows(&self) -> (r: usize)
        requires
            self.wf(),
        ensures
            r == self@.rows(),
    {
        self.shape[0]
    }

    /// The number of independent rows of data.
    pub fn width(&self) -> (r: usize)
        requires
            self.wf(),
        ensures
            r == self@.width(),
    {
        self.width
    }
}

impl<E: Copy> NdArray<E> {
    /// An array of the shape of `template` but with `rows` positions along
    /// the leading axis, every element being `value`.
    pub fn filled<X>(template: &NdArray<X>, rows: usize, value: E) -> (r: Self)
        requires
            template.wf(),
            rows * template@.width() <= usize::MAX,
        ensures
            r.wf(),
            r@.shape == template@.reshaped(rows),
            r@.width() == template@.width(),
            r@.values == Seq::new((rows * template@.width()) as nat, |k: int| value),
    {
        let width = template.width;
        let total = rows * width;
        let mut shape = template.shape.clone();
        shape.set(0, rows);
        let mut values: Vec<E> = Vec::with_capacity(total);
        let mut n: usize = 0;
        while n < total
            invariant
                n <= total,
                values@ == Seq::new(n as nat, |k: int| value),
            decreases total - n,
        {
            values.push(value);
            assert(values@ =~= Seq::new((n + 1) as nat, |k: int| value));
            n += 1;
        }
        proof {
            lemma_width_of_update(template.shape@, rows);
        }
        NdArray { shape, width, values }
    }

    /// The element at position `i` of the leading axis and flat position `j`
    /// of the remaining axes.
    pub fn get(&self, i: usize, j: usize) -> (r: E)
        requires
            self.wf(),
            i < self@.rows(),
            j < self@.width(),
        ensures
            r == self@.at(i as int, j as int),
    {
        proof {
            lemma_flat_index(i as int, j as int, self@.rows() as int, self.width as int);
            assert(i * self.width <= i * self.width + j < self.values.len());
        }
        self.values[i * self.width + j]
    }

    /// The row of data at flat position `j`, as an array of one axis.
    pub fn column(&self, j: usize) -> (r: Self)
        requires
            self.wf(),
            j < self@.width(),
        ensures
            r.wf(),
            r@.shape == seq![self@.shape[0]],
            r@.values == self@.column(j as int),
            r@.width() == 1,
            r@.column(0) == self@.column(j as int),
    {
        let rows = self.shape[0];
        let mut shape: Vec<usize> = Vec::with_capacity(1);
        shape.push(rows);
        let mut values: Vec<E> = Vec::with_capacity(rows);
        let mut i: usize = 0;
        while i < rows
            invariant
                i <= rows,
                rows == self@.rows(),
                j < self@.width(),
                self.wf(),
                values@.len() == i,
                forall|r: int| 0 <= r < i ==> #[trigger] values@[r] == self@.at(r, j as int),
            decreases rows - i,
        {
            values.push(self.get(i, j));
            i += 1;
        }
        let r = NdArray { shape, width: 1, values };
        proof {
            assert(r@.shape =~= seq![self@.shape[0]]);
            assert(r@.values =~= self@.column(j as int));
            assert(r@.shape.skip(1).len() == 0);
            assert(volume(r@.shape.skip(1)) == 1);
            assert(r@.rows() * 1 == r@.rows()) by (nonlinear_arith);
            assert(values.len() == values@.len());
            lemma_one_axis(r@);
        }
        r
    }

    /// Overwrites the row of data at flat position `j` with the elements of
    /// an array of one axis, and leaves the other rows as they were.
    pub fn set_column(&mut self, j: usize, column: &Self)
        requires
            old(self).wf(),
            j < old(self)@.width(),
            column.wf(),
            column@.shape == seq![old(self)@.shape[0]],
        ensures
            final(self).wf(),
            final(self)@.shape == old(self)@.shape,
            final(self)@.column(j as int) == column@.column(0),
            forall|c: int|
                0 <= c < old(self)@.width() && c != j ==> #[trigger] final(self)@.column(c) == old(
                    self,
                )@.column(c),
    {
        let ghost before = self@;
        let rows = self.shape[0];
        proof {
            lemma_one_axis(column@);
        }
        let mut i: usize = 0;
        while i < rows
            invariant
                i <= rows,
                rows == before.rows(),
                j < before.width(),
                self.wf(),
                self@.shape == before.shape,
                column.wf(),
                column@.rows() == rows,
                column@.width() == 1,
                forall|r: int| 0 <= r < i ==> #[trigger] self@.at(r, j as int) == column@.at(r, 0),
                forall|r: int, c: int|
                    0 <= r < rows && 0 <= c < before.width() && (c != j || r >= i)
                        ==> #[trigger] self@.at(r, c) == before.at(r, c),
            decreases rows - i,
        {
            let value = column.get(i, 0);
            self.set(i, j, value);
            i += 1;
        }
        proof {
            assert(self@.column(j as int) =~= column@.column(0));
            assert forall|c: int| 0 <= c < before.width() && c != j implies #[trigger] self@.column(
                c,
            ) == before.column(c) by {
                assert(self@.column(c) =~= before.column(c));
            }
        }
    }

    /// Overwrites the element at `(i, j)` and leaves every other element as
    /// it was.
    pub fn set(&mut self, i: usize, j: usize, value: E)
        requires
            old(self).wf(),
            i < old(self)@.rows(),
            j < old(self)@.width(),
        ensures
            final(self).wf(),
            final(self)@.shape == old(self)@.shape,
            final(self)@.at(i as int, j as int) == value,
            forall|i2: int, j2: int|
                0 <= i2 < old(self)@.rows() && 0 <= j2 < old(self)@.width() && (i2 != i || j2 != j)
                    ==> #[trigger] final(self)@.at(i2, j2) == old(self)@.at(i2, j2),
    {
        let ghost before = self@;
        proof {
            lemma_flat_index(i as int, j as int, self@.rows() as int, self.width as int);
            assert(i * self.width <= i * self.width + j < self.values.len());
        }
        let at = i * self.width + j;
        self.values.set(at, value);
        proof {
            assert forall|i2: int, j2: int|
                0 <= i2 < before.rows() && 0 <= j2 < before.width() && (i2 != i || j2 != j)
                implies #[trigger] self@.at(i2, j2) == before.at(i2, j2) by {
                lemma_flat_index(i2, j2, before.rows() as int, before.width() as int);
                if i2 * before.width() + j2 == at {
                    lemma_flat_index_injective(i2, j2, i as int, j as int, before.width() as int);
                }
            }
        }
    }
}

} // verus!
