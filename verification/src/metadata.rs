//! Annotations attached to a saved model.

use vstd::prelude::*;

verus! {

/// How the input fed to a network is to be interpreted.
#[derive(Debug, Clone, Copy, PartialEq, Eq, Structural)]
pub enum InputType {
    /// Comma-separated numeric values — always a valid fallback.
    Numeric,
    /// Grayscale image resized to `width`×`height`, normalized to [0, 1].
    ImageGrayscale { width: u32, height: u32 },
    /// RGB image resized to `width`×`height`, flattened as R,G,B,...
    ImageRgb { width: u32, height: u32 },
}

/// Optional annotations attached to a saved network. Every field is an
/// `Option` so a model saved without them still loads cleanly.
#[derive(Debug, Clone)]
pub struct ModelMetadata {
    pub description: Option<String>,
    pub input_type: Option<InputType>,
    /// Human-readable class labels for the output layer.
    pub output_labels: Option<Vec<String>>,
}

impl Default for ModelMetadata {
    /// Metadata with no annotations at all.
    fn default() -> (r: ModelMetadata)
        ensures
            r.description is None,
            r.input_type is None,
            r.output_labels is None,
    {
        ModelMetadata { description: None, input_type: None, output_labels: None }
    }
}

} // verus!
