//! Settings of the embedding layers (the layers themselves compute in
//! floating point and live outside the verified library).
use vstd::prelude::*;

verus! {

/// Embedding layer settings.
#[derive(Debug, Clone, Copy)]
pub struct EmbeddingConfig {
    pub vocab_size: usize,
    pub embedding_dim: usize,
    pub max_seq_len: usize,
    pub trainable: bool,
}

impl Default for EmbeddingConfig {
    /// 50000 tokens of dimension 768, sequences up to 512, trainable.
    fn default() -> (r: Self)
        ensures
            r.vocab_size == 50000,
            r.embedding_dim == 768,
            r.max_seq_len == 512,
            r.trainable,
    {
        EmbeddingConfig { vocab_size: 50000, embedding_dim: 768, max_seq_len: 512, trainable: true }
    }
}

/// How positions are encoded.
#[derive(Debug, Clone, Copy, PartialEq, Eq, Structural)]
pub enum PositionEncodingType {
    /// Learned position embeddings.
    Learned,
    /// Fixed sinusoidal encodings.
    Sinusoidal,
}

} // verus!
