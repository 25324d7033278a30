//! A small dense-matrix library.
//!
//! A [`Matrix`] owns a row count, a column count, and a flat backing vector of
//! `i64` elements in row-major order: the element at `(row, col)` lives at flat
//! offset `row * cols + col`.  Element arithmetic wraps around on overflow, so
//! every operation is total on well-formed operands.
//!
//! The contracts speak of [`model::MatView`], the mathematical image of a
//! matrix; `laws` states and proves the algebraic facts the operations obey.

pub mod laws;
pub mod matrix;
pub mod model;

pub use matrix::Matrix;
pub use matrix::MatrixError;
