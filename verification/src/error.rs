use vstd::prelude::*;

verus! {

/// Why an operation refused its operands.
#[derive(Debug, Clone, Copy, PartialEq, Eq, Structural)]
pub enum TensorError {
    /// Operand shapes or ranks do not fit together.
    ShapeMismatch,
    /// An index, a slice bound or a dimension selector lies outside the tensor.
    OutOfRange,
    /// A structural precondition of the operation does not hold.
    InvalidArgument,
}

} // verus!
