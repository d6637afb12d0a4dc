//! A dense matrix library over 64-bit integers.
//!
//! A matrix is stored as a flat row-major buffer together with its
//! dimensions.  The library offers construction (zero, one, identity,
//! random fills), indexed access, elementwise arithmetic, matrix
//! multiplication, transposition and Doolittle LU decomposition, each
//! with a contract that pins down the result entry by entry.
//!
//! A small companion module holds the rules of a 3x3 board game that
//! ships with the same code base.

pub mod lu;
pub mod mathutil;
pub mod matrix;
pub mod rng;
pub mod tictactoe;

pub use matrix::Matrix;
pub use matrix::MatrixError;
