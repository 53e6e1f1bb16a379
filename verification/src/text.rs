//! The wording of the error messages.
use vstd::prelude::*;
use vstd::string::*;
use crate::array::NdArray;
use crate::array::NdSpec;
use crate::num::SplineNum;

verus! {

/// The decimal digit `d`.
pub open spec fn digit(d: nat) -> Seq<char> {
    if d == 0 {
        "0"@
    } else if d == 1 {
        "1"@
    } else if d == 2 {
        "2"@
    } else if d == 3 {
        "3"@
    } else if d == 4 {
        "4"@
    } else if d == 5 {
        "5"@
    } else if d == 6 {
        "6"@
    } else if d == 7 {
        "7"@
    } else if d == 8 {
        "8"@
    } else {
        "9"@
    }
}

/// The number `n` in decimal digits, without leading zeros.
pub open spec fn decimal(n: nat) -> Seq<char>
    decreases n,
{
    if n < 10 {
        digit(n)
    } else {
        decimal(n / 10) + digit(n % 10)
    }
}

/// The items in order, separated by a comma and a blank.
pub open spec fn joined(items: Seq<Seq<char>>) -> Seq<char>
    decreases items.len(),
{
    if items.len() == 0 {
        Seq::empty()
    } else if items.len() == 1 {
        items[0]
    } else {
        joined(items.drop_last()) + ", "@ + items.last()
    }
}

/// The items as a list in square brackets.
pub open spec fn bracketed(items: Seq<Seq<char>>) -> Seq<char> {
    "["@ + joined(items) + "]"@
}

/// A shape as a list of its axis lengths.
pub open spec fn shape_text(shape: Seq<usize>) -> Seq<char> {
    bracketed(Seq::new(shape.len(), |i: int| decimal(shape[i] as nat)))
}

/// The elements of `values` as a list.
pub open spec fn row_text<T: SplineNum>(values: Seq<T>) -> Seq<char> {
    bracketed(Seq::new(values.len(), |i: int| values[i].describe_spec()@))
}

/// The message for a boundary array whose shape is `actual` where the data
/// asks for `expected`.
pub open spec fn wrong_shape_text(expected: Seq<usize>, actual: Seq<usize>) -> Seq<char> {
    "Boundary conditions array has wrong shape. Expected: "@ + shape_text(expected) + ", got: "@
        + shape_text(actual)
}

/// The message for periodic data whose rows do not end on the values on
/// which they start. For data of one axis it shows the two values, for more
/// axes the first and the last position of the leading axis as lists.
pub open spec fn open_ends_text<T: SplineNum>(data: NdSpec<T>) -> Seq<char> {
    let last = data.rows() - 1;
    let (first_text, last_text) = if data.shape.len() == 1 {
        (data.at(0, 0).describe_spec()@, data.at(last, 0).describe_spec()@)
    } else {
        (row_text(data.row(0)), row_text(data.row(last)))
    };
    "for periodic boundary condition the first and last value must be equal. First: "@ + first_text
        + ", last: "@ + last_text
}

/// The message for a query outside the coordinates.
pub open spec fn out_of_range_text<T: SplineNum>(query: T) -> Seq<char> {
    "x = "@ + query.describe_spec()@ + " is not in range"@
}

/// The message for fewer samples than a cubic spline needs.
pub open spec fn too_few_text() -> Seq<char> {
    "The chosen Interpolation strategy needs at least 3 data points"@
}

/// The decimal digit `d`.
fn digit_str(d: usize) -> (r: &'static str)
    requires
        d < 10,
    ensures
        r@ == digit(d as nat),
{
    if d == 0 {
        "0"
    } else if d == 1 {
        "1"
    } else if d == 2 {
        "2"
    } else if d == 3 {
        "3"
    } else if d == 4 {
        "4"
    } else if d == 5 {
        "5"
    } else if d == 6 {
        "6"
    } else if d == 7 {
        "7"
    } else if d == 8 {
        "8"
    } else {
        "9"
    }
}

/// Writes a number in decimal digits.
pub fn render_usize(n: usize) -> (r: String)
    ensures
        r@ == decimal(n as nat),
    decreases n,
{
    if n < 10 {
        String::from_str(digit_str(n))
    } else {
        render_usize(n / 10).concat(digit_str(n % 10))
    }
}

/// Writes a shape as a list of its axis lengths.
pub fn render_shape(shape: &Vec<usize>) -> (r: String)
    ensures
        r@ == shape_text(shape@),
{
    let ghost items = Seq::new(shape@.len(), |i: int| decimal(shape@[i] as nat));
    let mut body = String::from_str("");
    let mut i: usize = 0;
    proof {
        reveal_strlit("");
        assert(items.take(0) =~= Seq::<Seq<char>>::empty());
        assert(body@ =~= joined(items.take(0)));
    }
    while i < shape.len()
        invariant
            i <= shape.len(),
            items == Seq::new(shape@.len(), |i: int| decimal(shape@[i] as nat)),
            body@ == joined(items.take(i as int)),
        decreases shape.len() - i,
    {
        let ghost before = items.take(i as int);
        let ghost after = items.take(i + 1);
        proof {
            assert(after.drop_last() =~= before);
            assert(after.last() == decimal(shape@[i as int] as nat));
        }
        if i > 0 {
            body = body.concat(", ");
        } else {
            proof {
                assert(before.len() == 0);
                assert(body@ =~= Seq::<char>::empty());
            }
        }
        body = body.concat(render_usize(shape[i]).as_str());
        proof {
            assert(body@ =~= joined(after));
        }
        i += 1;
    }
    proof {
        assert(items.take(shape@.len() as int) =~= items);
    }
    String::from_str("[").concat(body.as_str()).concat("]")
}

/// Writes the elements at position `i` of the leading axis as a list.
pub fn render_row<T: SplineNum>(data: &NdArray<T>, i: usize) -> (r: String)
    requires
        data.wf(),
        i < data@.rows(),
    ensures
        r@ == row_text(data@.row(i as int)),
{
    let width = data.width();
    let ghost row = data@.row(i as int);
    let ghost items = Seq::new(row.len(), |c: int| row[c].describe_spec()@);
    let mut body = String::from_str("");
    let mut j: usize = 0;
    proof {
        reveal_strlit("");
        assert(items.take(0) =~= Seq::<Seq<char>>::empty());
        assert(body@ =~= joined(items.take(0)));
    }
    while j < width
        invariant
            j <= width,
            width == data@.width(),
            i < data@.rows(),
            data.wf(),
            row == data@.row(i as int),
            items == Seq::new(row.len(), |c: int| row[c].describe_spec()@),
            body@ == joined(items.take(j as int)),
        decreases width - j,
    {
        let ghost before = items.take(j as int);
        let ghost after = items.take(j + 1);
        proof {
            assert(after.drop_last() =~= before);
            assert(after.last() == data@.at(i as int, j as int).describe_spec()@);
        }
        if j > 0 {
            body = body.concat(", ");
        } else {
            proof {
                assert(before.len() == 0);
                assert(body@ =~= Seq::<char>::empty());
            }
        }
        body = body.concat(data.get(i, j).describe().as_str());
        proof {
            assert(body@ =~= joined(after));
        }
        j += 1;
    }
    proof {
        assert(items.take(width as int) =~= items);
    }
    String::from_str("[").concat(body.as_str()).concat("]")
}

/// The message for a boundary array of the wrong shape.
pub fn wrong_shape_message(expected: &Vec<usize>, actual: &Vec<usize>) -> (r: String)
    ensures
        r@ == wrong_shape_text(expected@, actual@),
{
    String::from_str("Boundary conditions array has wrong shape. Expected: ").concat(
        render_shape(expected).as_str(),
    ).concat(", got: ").concat(render_shape(actual).as_str())
}

/// The message for periodic data with open ends.
pub fn open_ends_message<T: SplineNum>(data: &NdArray<T>) -> (r: String)
    requires
        data.wf(),
        data@.rows() >= 1,
    ensures
        r@ == open_ends_text(data@),
{
    proof {
        if data@.shape.len() == 1 {
            crate::array::lemma_one_axis(data@);
        }
    }
    let last = data.rows() - 1;
    let (first_text, last_text) = if data.shape().len() == 1 {
        (data.get(0, 0).describe(), data.get(last, 0).describe())
    } else {
        (render_row(data, 0), render_row(data, last))
    };
    String::from_str(
        "for periodic boundary condition the first and last value must be equal. First: ",
    ).concat(first_text.as_str()).concat(", last: ").concat(last_text.as_str())
}

/// The message for a query outside the coordinates.
pub fn out_of_range_message<T: SplineNum>(query: T) -> (r: String)
    ensures
        r@ == out_of_range_text(query),
{
    String::from_str("x = ").concat(query.describe().as_str()).concat(" is not in range")
}

/// The message for fewer samples than a cubic spline needs.
pub fn too_few_message() -> (r: String)
    ensures
        r@ == too_few_text(),
{
    String::from_str("The chosen Interpolation strategy needs at least 3 data points")
}

} // verus!
