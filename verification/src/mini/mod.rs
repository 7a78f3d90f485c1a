//! The teaching tokenizers: a BPE tokenizer with its training demo and a
//! WordPiece tokenizer, and the embedding settings.
pub mod vocab;
pub mod tokenizer;
pub mod bpe;
pub mod wordpiece;
pub mod embedding;
pub mod gpt;
