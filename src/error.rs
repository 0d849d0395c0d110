//! Failures of the classification of one exchange's input.
use vstd::prelude::*;

verus! {

/// Why an exchange gets no prediction. None of these aborts the exchange.
#[derive(Debug, Clone, Copy, PartialEq, Eq, Structural)]
pub enum ClassifyError {
    /// The image or text could not be decoded.
    InputDecode,
    /// The decoded input does not fit the model's declared input shape.
    ShapeMismatch,
    /// The model failed at run time, or its output has no best class.
    InferenceExecution,
}

} // verus!
