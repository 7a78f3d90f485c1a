//! Error type of the LLM engine.
use vstd::prelude::*;

verus! {

/// Errors of loading, tokenizing and running models.
#[derive(Debug, Clone, PartialEq, Eq)]
pub enum LLMError {
    /// Failed to load model: {0}
    LoadError(String),
    /// Inference error: {0}
    InferenceError(String),
    /// Tokenizer error: {0}
    TokenizerError(String),
    /// Quantization error: {0}
    QuantizationError(String),
    /// Unsupported model: {0}
    UnsupportedModel(String),
    /// IO error: {0}
    IoError(String),
}

} // verus!
