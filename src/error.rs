use vstd::prelude::*;

verus! {

/// Why a model could not be built or used.
#[derive(Clone, Copy, Debug, PartialEq, Eq, Structural)]
pub enum MlpError {
    /// The byte stream ended before a count, a dimension or a value could be read whole.
    TruncatedInput,
    /// A declared row count, column count or bias length is negative.
    NegativeDimension,
    /// A bias length differs from its layer's column count, or a layer's row
    /// count differs from the previous layer's column count.
    ShapeMismatch,
    /// The model has no layer, or its last layer has no output.
    EmptyModel,
    /// The input vector's length is not the first layer's row count.
    InputLengthMismatch,
}

} // verus!
