//! Dense matrix multiplication over `i64`, organised as a task protocol:
//! one task per output cell, a worker step that turns a task into a reply,
//! and a collector that assembles replies into the result matrix.
//! Every step is verified against the mathematical dot product.

mod error;
mod vector;
mod matrix;
mod render;

pub use error::MatrixError;
pub use vector::{dot_product, Vector};
pub use matrix::{worker_for, Matrix, MsgInput, MsgOutput, NUM_THREADS};
