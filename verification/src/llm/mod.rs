//! LLM engine: tokenizers, model configuration, quantization helpers and
//! the model loader's format logic.
pub mod error;
pub mod tokenizer;
pub mod model;
pub mod quantization;
pub mod loader;
pub mod generation;
