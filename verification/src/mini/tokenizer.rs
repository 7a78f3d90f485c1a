//! Common interface of the teaching tokenizers.
use vstd::prelude::*;

verus! {

/// Encoding text to ids and decoding ids back to text.
pub trait Tokenizer {
    /// Well-formedness of the tokenizer's tables.
    spec fn inv(&self) -> bool;

    /// Whether encoding `text` completes (some tokenizers cannot split
    /// every text).
    spec fn can_encode(&self, text: Seq<char>) -> bool;

    /// Ids of a text.
    spec fn encoding(&self, text: Seq<char>) -> Seq<usize>;

    /// Text of ids.
    spec fn decoding(&self, ids: Seq<usize>) -> Seq<char>;

    /// Number of vocabulary entries.
    spec fn vocab_len(&self) -> nat;

    /// The id given to unknown tokens.
    spec fn unk_id(&self) -> usize;

    /// Encodes text as token ids.
    fn encode(&self, text: &str) -> (r: Vec<usize>)
        requires
            self.inv(),
            self.can_encode(text@),
        ensures
            r@ == self.encoding(text@),
    ;

    /// Decodes token ids as text.
    fn decode(&self, ids: &[usize]) -> (r: String)
        requires
            self.inv(),
        ensures
            r@ == self.decoding(ids@),
    ;

    /// Vocabulary size.
    fn vocab_size(&self) -> (r: usize)
        requires
            self.inv(),
        ensures
            r == self.vocab_len(),
    ;

    /// Id of unknown tokens.
    fn unknown_id(&self) -> (r: usize)
        ensures
            r == self.unk_id(),
    ;
}

} // verus!
