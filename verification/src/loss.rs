//! The loss-function tags the training loop dispatches on.

use vstd::prelude::*;

verus! {

/// Selects which loss function a training run uses.
///
/// - `Mse` — mean-squared error; pair with an Identity or Sigmoid output.
/// - `CrossEntropy` — categorical cross-entropy; pair with a Softmax
///   output. Its gradient is the combined Softmax-and-cross-entropy
///   gradient, `predicted - expected`.
/// - `BinaryCrossEntropy` — binary cross-entropy; pair with Sigmoid.
/// - `Mae` — mean absolute error; pair with Identity.
/// - `Huber` — Huber loss with unit threshold; pair with Identity.
#[derive(Debug, Clone, Copy, PartialEq, Eq, Structural)]
pub enum LossType {
    Mse,
    CrossEntropy,
    BinaryCrossEntropy,
    Mae,
    Huber,
}

} // verus!
