//! The errors of fitting and of evaluating.
use vstd::prelude::*;

verus! {

/// Why an interpolator could not be built. Every variant carries a message
/// that names the offending values.
#[derive(Debug, Clone, PartialEq, Eq)]
pub enum BuilderError {
    /// Too few samples for the chosen strategy.
    NotEnoughData(String),
    /// The coordinates are not strictly increasing.
    Monotonic(String),
    /// The coordinates and the leading axis of the data differ in length.
    AxisLenght(String),
    /// The data has the wrong number of axes.
    DimensionError(String),
    /// An array that accompanies the data has the wrong shape.
    ShapeError(String),
    /// The data holds values that the chosen boundary condition excludes.
    ValueError(String),
}

/// Why a query could not be answered.
#[derive(Debug, Clone, PartialEq, Eq)]
pub enum InterpolateError {
    /// The query lies outside the coordinates and extrapolation is off.
    OutOfBounds(String),
}

impl BuilderError {
    /// The message that the error carries.
    pub open spec fn text(&self) -> Seq<char> {
        match self {
            BuilderError::NotEnoughData(m) => m@,
            BuilderError::Monotonic(m) => m@,
            BuilderError::AxisLenght(m) => m@,
            BuilderError::DimensionError(m) => m@,
            BuilderError::ShapeError(m) => m@,
            BuilderError::ValueError(m) => m@,
        }
    }

    /// Whether the error says that there are too few samples, in these
    /// words.
    pub open spec fn is_not_enough_data(&self, text: Seq<char>) -> bool {
        self is NotEnoughData && self.text() == text
    }

    /// Whether the error says that an array has the wrong shape, in these
    /// words.
    pub open spec fn is_shape_error(&self, text: Seq<char>) -> bool {
        self is ShapeError && self.text() == text
    }

    /// Whether the error says that the data holds excluded values, in these
    /// words.
    pub open spec fn is_value_error(&self, text: Seq<char>) -> bool {
        self is ValueError && self.text() == text
    }

    /// The message that the error carries.
    pub fn message(&self) -> (r: &String)
        ensures
            r@ == self.text(),
    {
        match self {
            BuilderError::NotEnoughData(m) => m,
            BuilderError::Monotonic(m) => m,
            BuilderError::AxisLenght(m) => m,
            BuilderError::DimensionError(m) => m,
            BuilderError::ShapeError(m) => m,
            BuilderError::ValueError(m) => m,
        }
    }
}

impl InterpolateError {
    /// The message that the error carries.
    pub open spec fn text(&self) -> Seq<char> {
        match self {
            InterpolateError::OutOfBounds(m) => m@,
        }
    }

    /// Whether the error says that the query is out of bounds, in these
    /// words.
    pub open spec fn is_out_of_bounds(&self, text: Seq<char>) -> bool {
        self is OutOfBounds && self.text() == text
    }

    /// The message that the error carries.
    pub fn message(&self) -> (r: &String)
        ensures
            r@ == self.text(),
    {
        match self {
            InterpolateError::OutOfBounds(m) => m,
        }
    }
}

} // verus!
