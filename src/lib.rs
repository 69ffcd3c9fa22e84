//! Dense row-major matrices with a verified textbook product.
//!
//! The element type is generic: the arithmetic used for the inner products is
//! handed to [`Matrix::multiply`] as a step function, so the library proves the
//! shape, layout, bounds and summation order for any element type.

pub mod error;
pub mod laws;
pub mod matrix;
pub mod model;
pub mod text;

pub use error::MatrixError;
pub use matrix::Matrix;
