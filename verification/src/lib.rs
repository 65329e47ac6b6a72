//! A dense two-dimensional tensor with an optional gradient accumulator, and
//! the computation graph over which gradients are propagated backwards.
//!
//! The library is generic in the number type: anything that is a [`Scalar`]
//! can be held, the floating-point numbers among them. Such numbers do not
//! promise one result for every operation, so the contracts do not name the
//! result of `+`, `*` or of the conversion from small integers. They speak
//! of the *outcomes* that the number type admits: an entry of a product is
//! an outcome of adding up, in a fixed order, outcomes of the products of a
//! row and a column.
//!
//! - [`scalar`] holds the number type and the vocabulary for outcomes.
//! - [`matrix`] holds the vocabulary for matrices: shapes, columns,
//!   transposes, products and sums.
//! - [`tensor`] holds [`Tensor`], its constructors and the matrix product.
//! - [`graph`] holds [`Graph`], the arena in which a product remembers its
//!   operands, and the backward pass.
//! - [`laws`] holds what follows in general: when a product has one value
//!   and what that value is, which gradients a backward pass leaves, and
//!   when the number type accepts every operation asked of it.
pub mod error;
pub mod graph;
pub mod laws;
pub mod matrix;
pub mod scalar;
pub mod tensor;

pub use error::TensorError;
pub use graph::{Graph, Op};
pub use scalar::Scalar;
pub use tensor::Tensor;
