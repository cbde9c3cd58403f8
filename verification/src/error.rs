//! The error type shared by the tensor backend and the layers.
use vstd::prelude::*;

verus! {

/// Why a tensor operation or a request for a parameter was refused.
#[derive(Debug, Clone, Copy, PartialEq, Eq, Structural)]
pub enum TensorError {
    /// A requested shape is empty or has a dimension below one.
    InvalidShape,
    /// A uniform distribution was given a lower bound above its upper bound.
    InvalidRange,
    /// A variable of that name is already registered with another shape.
    ShapeMismatch,
    /// The operands' shapes do not fit the operation.
    IncompatibleShapes,
    /// An operand is in a memory layout that the operation does not take.
    IncompatibleLayouts,
    /// The operands live on different devices.
    IncompatibleDevices,
}

} // verus!
