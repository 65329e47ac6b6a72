//! The ways in which building or combining tensors can fail.
use vstd::prelude::*;

verus! {

/// Why an operation on tensors was refused. Every failure is reported to the
/// caller; none ends the process.
#[derive(Debug, Clone, Copy, PartialEq, Eq, Structural)]
pub enum TensorError {
    /// The rows handed to a constructor hold no entry: there is no row, the
    /// first row is empty, or a requested dimension is zero.
    EmptyInput,
    /// The rows handed to a constructor do not all have the length of the
    /// first.
    IrregularRows,
    /// The inner dimensions of a product disagree: the left operand has
    /// `left_cols` columns, the right operand `right_rows` rows.
    ShapeMismatch { left_cols: usize, right_rows: usize },
    /// A handle names no node of the graph it was given to.
    UnknownNode,
    /// Gradients were asked of a tensor that holds no gradient.
    NoGradient,
}

} // verus!
