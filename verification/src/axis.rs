//! Where a query lies among the coordinates.
use vstd::prelude::*;
use crate::num::SplineNum;

verus! {

/// Whether `query` lies between the first and the last coordinate, both
/// included.
pub open spec fn in_range<T: SplineNum>(x: Seq<T>, query: T) -> bool {
    x[0].at_most_spec(query) && query.at_most_spec(x[x.len() - 1])
}

/// The index that bisection of the coordinates `lo..=hi` arrives at: the
/// middle coordinate replaces `lo` where it is at most `query`, and `hi`
/// otherwise, until the two are neighbours.
pub open spec fn bisect<T: SplineNum>(x: Seq<T>, query: T, lo: int, hi: int) -> int
    decreases hi - lo,
{
    if lo + 1 >= hi {
        lo
    } else {
        let mid = lo + (hi - lo) / 2;
        if x[mid].at_most_spec(query) {
            bisect(x, query, mid, hi)
        } else {
            bisect(x, query, lo, mid)
        }
    }
}

/// The index of the segment that answers `query`: the first segment for a
/// query that the first coordinate is not at most, the last segment for a
/// query that the last coordinate is at most, and the segment that bisection
/// finds otherwise.
pub open spec fn segment<T: SplineNum>(x: Seq<T>, query: T) -> int {
    if !x[0].at_most_spec(query) {
        0
    } else if x[x.len() - 1].at_most_spec(query) {
        x.len() - 2
    } else {
        bisect(x, query, 0, x.len() - 1)
    }
}

/// Bisection stays between its bounds, and brackets the query where its
/// bounds do.
pub proof fn lemma_bisect<T: SplineNum>(x: Seq<T>, query: T, lo: int, hi: int)
    requires
        0 <= lo < hi < x.len(),
        x[lo].at_most_spec(query),
        !x[hi].at_most_spec(query),
    ensures
        lo <= bisect(x, query, lo, hi) < hi,
        x[bisect(x, query, lo, hi)].at_most_spec(query),
        !x[bisect(x, query, lo, hi) + 1].at_most_spec(query),
    decreases hi - lo,
{
    if lo + 1 < hi {
        let mid = lo + (hi - lo) / 2;
        if x[mid].at_most_spec(query) {
            lemma_bisect(x, query, mid, hi);
        } else {
            lemma_bisect(x, query, lo, mid);
        }
    }
}

/// Tells whether `query` lies between the first and the last coordinate.
pub fn is_in_range<T: SplineNum>(x: &Vec<T>, query: T) -> (r: bool)
    requires
        x.len() >= 1,
    ensures
        r == in_range(x@, query),
{
    x[0].at_most(query) && query.at_most(x[x.len() - 1])
}

/// Finds the segment that answers `query`. A query that the first
/// coordinate is at most and the last coordinate is not lies in the segment
/// found: the left coordinate of that segment is at most the query, and the
/// right coordinate is not. Any other query gets the segment at the end that
/// it lies beyond, the last segment also for a query on the last coordinate.
pub fn index_left_of<T: SplineNum>(x: &Vec<T>, query: T) -> (i: usize)
    requires
        x.len() >= 2,
    ensures
        i == segment(x@, query),
        i + 1 < x.len(),
        !x@[0].at_most_spec(query) ==> i == 0,
        x@[0].at_most_spec(query) && x@[x.len() - 1].at_most_spec(query) ==> i == x.len() - 2,
        x@[0].at_most_spec(query) && !x@[x.len() - 1].at_most_spec(query) ==> x@[i as int].at_most_spec(
            query,
        ) && !x@[i + 1].at_most_spec(query),
{
    let len = x.len();
    if !x[0].at_most(query) {
        return 0;
    }
    if x[len - 1].at_most(query) {
        return len - 2;
    }
    let mut lo: usize = 0;
    let mut hi: usize = len - 1;
    while lo + 1 < hi
        invariant
            0 <= lo < hi < len,
            len == x.len(),
            x@[lo as int].at_most_spec(query),
            !x@[hi as int].at_most_spec(query),
            bisect(x@, query, lo as int, hi as int) == bisect(x@, query, 0, len - 1),
        decreases hi - lo,
    {
        let mid = lo + (hi - lo) / 2;
        if x[mid].at_most(query) {
            lo = mid;
        } else {
            hi = mid;
        }
    }
    lo
}

} // verus!
