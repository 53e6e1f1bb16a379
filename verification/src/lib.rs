//! Cubic-spline interpolation of sampled data over a strictly increasing
//! coordinate axis.
//!
//! The data is an n-dimensional array whose leading axis runs along the
//! coordinates; every position of the remaining axes is an independent row
//! with its own curve. A [`CubicSpline`](cubic_spline::CubicSpline) is fitted
//! once and then evaluated query by query.
pub mod array;
pub mod axis;
pub mod boundary;
pub mod cubic_spline;
pub mod error;
pub mod exact;
pub mod laws;
pub mod num;
pub mod periodic;
pub mod strategies;
pub mod system;
pub mod text;
pub mod tridiagonal;
