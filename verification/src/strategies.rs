//! What an interpolation strategy offers: a builder that fits the strategy
//! to coordinates and data, and the fitted strategy that answers queries.
use vstd::prelude::*;
use crate::array::{NdArray, NdSpec};
use crate::error::{BuilderError, InterpolateError};
use crate::num::SplineNum;

verus! {

/// The configuration of a strategy, from which the strategy is fitted.
pub trait StrategyBuilder<T: SplineNum>: Sized {
    /// The fitted strategy.
    type FinishedStrat: Strategy<T>;

    /// Whether the configuration is well formed.
    spec fn ready(&self) -> bool;

    /// The least number of samples that the strategy needs.
    spec fn minimum_data_length_spec() -> nat;

    /// The least number of samples that the strategy needs.
    fn minimum_data_length() -> (r: usize)
        ensures
            r == Self::minimum_data_length_spec(),
    ;

    /// Fits the strategy to the data at the coordinates `x`, which run along
    /// the leading axis of `data`. A strategy that comes out fits these
    /// coordinates and this data.
    fn build(self, x: &Vec<T>, data: &NdArray<T>) -> (r: Result<Self::FinishedStrat, BuilderError>)
        requires
            self.ready(),
            data.wf(),
            x.len() == data@.rows(),
        ensures
            r matches Ok(strategy) ==> strategy.fits(x@, data@),
            x.len() < Self::minimum_data_length_spec() ==> r is Err,
    ;
}

/// A fitted strategy.
pub trait Strategy<T: SplineNum>: Sized {
    /// Whether the strategy was fitted to coordinates and data of this
    /// extent.
    spec fn fits(&self, x: Seq<T>, data: NdSpec<T>) -> bool;

    /// Interpolates at `query`, one value per row of data, into `target`.
    /// The coordinates and the data are those that the strategy was fitted
    /// to. On an error `target` is left as it was.
    fn interp_into(&self, x: &Vec<T>, data: &NdArray<T>, target: &mut Vec<T>, query: T) -> (r: Result<
        (),
        InterpolateError,
    >)
        requires
            self.fits(x@, data@),
            data.wf(),
            x.len() == data@.rows(),
            old(target).len() == data@.width(),
        ensures
            final(target).len() == old(target).len(),
            r is Err ==> final(target)@ == old(target)@,
    ;
}

} // verus!
