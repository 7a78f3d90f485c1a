//! Byte-level BPE tokenizer of the LLM engine.
//!
//! A word is first split into its UTF-8 bytes; each byte becomes a token
//! (ASCII bytes as their character, other bytes as `<0xHH>`); then the merge
//! rules are applied, in order, in repeated passes until a pass merges
//! nothing.
use vstd::prelude::*;
use vstd::utf8::encode_utf8;
use crate::llm::error::LLMError;
use crate::strmap::{StrMap, numbered};
use crate::merge::{pair_scan, pair_scan_exec, lemma_pair_scan_len, lemma_pair_scan_unchanged};
use crate::text::{
    char_string, concat_strings, hex_digit, hex_token, hex_token_string, push_char, split_whitespace, split_ws,
    str_eq, string_of, to_chars, views, first_index_of, find_char, string_of_range, lines,
    lines_of,
};

verus! {

/// Kind of tokenizer.
#[derive(Debug, Clone, Copy, PartialEq, Eq, Structural)]
pub enum TokenizerType {
    BPE,
    WordPiece,
    Unigram,
    Char,
}

/// Tokenizer configuration: vocabulary size and special token ids.
#[derive(Debug, Clone, Copy)]
pub struct TokenizerConfig {
    pub tokenizer_type: TokenizerType,
    pub vocab_size: usize,
    pub pad_token_id: Option<usize>,
    pub bos_token_id: Option<usize>,
    pub eos_token_id: Option<usize>,
    pub unk_token_id: Option<usize>,
    pub sep_token_id: Option<usize>,
    pub cls_token_id: Option<usize>,
    pub mask_token_id: Option<usize>,
    pub extra_ids: usize,
}

/// The default configuration: BPE, 50257 tokens, BOS 1, EOS 2, UNK 0.
pub open spec fn default_tokenizer_config() -> TokenizerConfig {
    TokenizerConfig {
        tokenizer_type: TokenizerType::BPE,
        vocab_size: 50257,
        pad_token_id: None,
        bos_token_id: Some(1),
        eos_token_id: Some(2),
        unk_token_id: Some(0),
        sep_token_id: None,
        cls_token_id: None,
        mask_token_id: None,
        extra_ids: 0,
    }
}

impl Default for TokenizerConfig {
    fn default() -> (r: Self)
        ensures
            r == default_tokenizer_config(),
    {
        TokenizerConfig {
            tokenizer_type: TokenizerType::BPE,
            vocab_size: 50257,
            pad_token_id: None,
            bos_token_id: Some(1),
            eos_token_id: Some(2),
            unk_token_id: Some(0),
            sep_token_id: None,
            cls_token_id: None,
            mask_token_id: None,
            extra_ids: 0,
        }
    }
}

/// Token ids with their attention mask and positions.
#[derive(Debug, Clone)]
pub struct TokenizeResult {
    pub input_ids: Vec<usize>,
    pub attention_mask: Option<Vec<usize>>,
    pub position_ids: Option<Vec<usize>>,
    pub token_type_ids: Option<Vec<usize>>,
}

// ----------------------------------------------------------------------
// Specification of byte-level BPE
// ----------------------------------------------------------------------

/// The token of one byte: ASCII bytes as their character, others as `<0xHH>`.
pub open spec fn byte_token(b: u8) -> Seq<char> {
    if b < 128 {
        seq![b as char]
    } else {
        hex_token(b)
    }
}

/// Initial tokens of a byte string.
pub open spec fn byte_tokens(bytes: Seq<u8>) -> Seq<Seq<char>> {
    Seq::new(bytes.len(), |i: int| byte_token(bytes[i]))
}

/// One pass applying every merge rule in order.
pub open spec fn merge_pass(w: Seq<Seq<char>>, merges: Seq<(Seq<char>, Seq<char>)>) -> (
    Seq<Seq<char>>,
    bool,
)
    decreases merges.len(),
{
    if merges.len() == 0 {
        (w, false)
    } else {
        let (w1, c1) = merge_pass(w, merges.drop_last());
        let (w2, c2) = pair_scan(w1, merges.last().0, merges.last().1, merges.last().0 + merges.last().1, 0);
        (w2, c1 || c2)
    }
}

/// Passes repeated until one merges nothing.
pub open spec fn bpe_merge(w: Seq<Seq<char>>, merges: Seq<(Seq<char>, Seq<char>)>) -> Seq<
    Seq<char>,
>
    decreases w.len(),
{
    let (w1, changed) = merge_pass(w, merges);
    if changed && w1.len() < w.len() {
        bpe_merge(w1, merges)
    } else {
        w1
    }
}

/// BPE tokens of one word.
pub open spec fn bpe_word(word: Seq<char>, merges: Seq<(Seq<char>, Seq<char>)>) -> Seq<
    Seq<char>,
> {
    bpe_merge(byte_tokens(encode_utf8(word)), merges)
}

/// Ids of tokens: the vocabulary id, else the unknown id if there is one,
/// else nothing.
pub open spec fn token_ids(vocab: Map<Seq<char>, usize>, unk: Option<usize>, toks: Seq<Seq<char>>) -> Seq<usize>
    decreases toks.len(),
{
    if toks.len() == 0 {
        seq![]
    } else {
        let prev = token_ids(vocab, unk, toks.drop_last());
        let t = toks.last();
        if vocab.contains_key(t) {
            prev.push(vocab[t])
        } else if unk is Some {
            prev.push(unk->0)
        } else {
            prev
        }
    }
}

/// Ids of a sequence of words.
pub open spec fn words_ids(
    vocab: Map<Seq<char>, usize>,
    merges: Seq<(Seq<char>, Seq<char>)>,
    unk: Option<usize>,
    words: Seq<Seq<char>>,
) -> Seq<usize>
    decreases words.len(),
{
    if words.len() == 0 {
        seq![]
    } else {
        words_ids(vocab, merges, unk, words.drop_last()) + token_ids(
            vocab,
            unk,
            bpe_word(words.last(), merges),
        )
    }
}

/// A special id when special tokens are requested and the id is configured.
pub open spec fn opt_special(add: bool, id: Option<usize>) -> Seq<usize> {
    if add && id is Some {
        seq![id->0]
    } else {
        seq![]
    }
}

/// Whether the token has the shape `<0x...}` that decoding reads as a byte.
pub open spec fn is_brace_hex(t: Seq<char>) -> bool {
    t.len() >= 4 && t[0] == '<' && t[1] == '0' && t[2] == 'x' && t.last() == '}'
}

/// Whether bytes 3..5 of the token's UTF-8 encoding form a string slice:
/// either two ASCII characters at 3 and 4, or one two-byte character at 3.
pub open spec fn brace_hex_sliceable(t: Seq<char>) -> bool {
    ((t[3] as u32) < 0x80 && t.len() >= 5 && (t[4] as u32) < 0x80) || (0x80 <= (t[3] as u32) && (
    t[3] as u32) < 0x800)
}

/// Value of a hexadecimal digit.
pub open spec fn hex_value(c: char) -> Option<u8> {
    if '0' <= c && c <= '9' {
        Some((c as u32 - 48) as u8)
    } else if 'a' <= c && c <= 'f' {
        Some((c as u32 - 87) as u8)
    } else if 'A' <= c && c <= 'F' {
        Some((c as u32 - 55) as u8)
    } else {
        None
    }
}

/// `u8::from_str_radix(s, 16)` for a two-character ASCII string: an
/// optional `+` and then one or two hexadecimal digits.
pub open spec fn parse_hex2(c1: char, c2: char) -> Option<u8> {
    if c1 == '+' {
        hex_value(c2)
    } else {
        match (hex_value(c1), hex_value(c2)) {
            (Some(h), Some(l)) => Some((h * 16 + l) as u8),
            _ => None,
        }
    }
}

/// Text that one vocabulary token contributes when decoding.
pub open spec fn token_text(t: Seq<char>) -> Seq<char> {
    if is_brace_hex(t) {
        if (t[3] as u32) < 0x80 {
            match parse_hex2(t[3], t[4]) {
                Some(b) => seq![b as char],
                None => seq![],
            }
        } else {
            seq![]
        }
    } else {
        t
    }
}

/// Text of a sequence of ids; ids outside the vocabulary contribute nothing.
pub open spec fn decode_text(inv: Seq<Seq<char>>, ids: Seq<usize>) -> Seq<char>
    decreases ids.len(),
{
    if ids.len() == 0 {
        seq![]
    } else {
        decode_text(inv, ids.drop_last()) + (if ids.last() < inv.len() {
            token_text(inv[ids.last() as int])
        } else {
            seq![]
        })
    }
}

/// Decoding does not slice a token inside a character.
pub open spec fn decodable(inv: Seq<Seq<char>>, ids: Seq<usize>) -> bool {
    forall|k: int|
        0 <= k < ids.len() && ids[k] < inv.len() && is_brace_hex(#[trigger] inv[ids[k] as int])
            ==> brace_hex_sliceable(inv[ids[k] as int])
}

/// The ids of the configuration's special tokens.
pub open spec fn is_special(c: TokenizerConfig, id: usize) -> bool {
    c.pad_token_id == Some(id) || c.bos_token_id == Some(id) || c.eos_token_id == Some(id)
        || c.unk_token_id == Some(id) || c.sep_token_id == Some(id) || c.cls_token_id == Some(id)
        || c.mask_token_id == Some(id)
}

/// Whether an id is not one of the configuration's special tokens.
pub open spec fn non_special(c: TokenizerConfig) -> spec_fn(usize) -> bool {
    |id: usize| !is_special(c, id)
}

/// Common interface of tokenizers.
pub trait Tokenizer: Send + Sync {
    /// Well-formedness of the tokenizer's tables.
    spec fn inv(&self) -> bool;

    /// Ids of a text.
    spec fn encoding(&self, text: Seq<char>, add_special_tokens: bool) -> Seq<usize>;

    /// The error that encoding a text reports, if it fails.
    spec fn encode_failure(&self, text: Seq<char>, add_special_tokens: bool) -> Option<LLMError>;

    /// Text of a sequence of ids.
    spec fn decoding(&self, ids: Seq<usize>) -> Seq<char>;

    /// The error that decoding ids reports, if it fails.
    spec fn decode_failure(&self, ids: Seq<usize>) -> Option<LLMError>;

    /// Ids that decoding accepts.
    spec fn can_decode(&self, ids: Seq<usize>) -> bool;

    /// The configuration.
    spec fn spec_config(&self) -> TokenizerConfig;

    /// Tokenizes with special tokens.
    fn encode(&self, text: &str) -> (r: Result<Vec<usize>, LLMError>)
        requires
            self.inv(),
        ensures
            match self.encode_failure(text@, true) {
                Some(e) => r == Err::<Vec<usize>, LLMError>(e),
                None => r matches Ok(v) && v@ == self.encoding(text@, true),
            },
    ;

    /// Tokenizes, with or without special tokens.
    fn encode_with_config(&self, text: &str, add_special_tokens: bool) -> (r: Result<
        Vec<usize>,
        LLMError,
    >)
        requires
            self.inv(),
        ensures
            match self.encode_failure(text@, add_special_tokens) {
                Some(e) => r == Err::<Vec<usize>, LLMError>(e),
                None => r matches Ok(v) && v@ == self.encoding(text@, add_special_tokens),
            },
    ;

    /// Text of ids.
    fn decode(&self, ids: &[usize]) -> (r: Result<String, LLMError>)
        requires
            self.inv(),
            self.can_decode(ids@),
        ensures
            match self.decode_failure(ids@) {
                Some(e) => r == Err::<String, LLMError>(e),
                None => r matches Ok(s) && s@ == self.decoding(ids@),
            },
    ;

    /// Text of ids, leaving out the special tokens.
    fn decode_skip_special_tokens(&self, ids: &[usize]) -> (r: Result<String, LLMError>)
        requires
            self.inv(),
            self.can_decode(ids@.filter(non_special(self.spec_config()))),
        ensures
            match self.decode_failure(ids@.filter(non_special(self.spec_config()))) {
                Some(e) => r == Err::<String, LLMError>(e),
                None => r matches Ok(s) && s@ == self.decoding(
                    ids@.filter(non_special(self.spec_config())),
                ),
            },
    ;

    /// Vocabulary size recorded in the configuration.
    fn vocab_size(&self) -> (r: usize)
        ensures
            r == self.spec_config().vocab_size,
    ;

    /// The configuration.
    fn config(&self) -> (r: &TokenizerConfig)
        ensures
            *r == self.spec_config(),
    ;
}

/// Byte-level BPE tokenizer.
pub struct BPETokenizer {
    vocab: StrMap,
    inverse_vocab: Vec<String>,
    merges: Vec<(String, String)>,
    config: TokenizerConfig,
    byte_vocab: Vec<String>,
}

/// Views of merge rules.
pub open spec fn merge_views(m: Seq<(String, String)>) -> Seq<(Seq<char>, Seq<char>)> {
    m.map_values(|p: (String, String)| (p.0@, p.1@))
}

impl BPETokenizer {
    /// The vocabulary (token -> id).
    pub closed spec fn vocab_view(&self) -> Map<Seq<char>, usize> {
        self.vocab@
    }

    /// The inverse vocabulary (id -> token).
    pub closed spec fn inverse_view(&self) -> Seq<Seq<char>> {
        views(self.inverse_vocab@)
    }

    /// The merge rules in priority order.
    pub closed spec fn merges_view(&self) -> Seq<(Seq<char>, Seq<char>)> {
        merge_views(self.merges@)
    }

    /// The vocabulary as an association list in insertion order.
    pub closed spec fn vocab_pairs(&self) -> Seq<(Seq<char>, usize)> {
        self.vocab.pairs()
    }

    /// The configuration.
    pub closed spec fn config_view(&self) -> TokenizerConfig {
        self.config
    }

    /// Tables are well formed: the vocabulary has distinct keys and the byte
    /// table holds the token of every byte.
    pub closed spec fn wf(&self) -> bool {
        &&& self.vocab.wf()
        &&& self.byte_vocab@.len() == 256
        &&& forall|b: int| 0 <= b < 256 ==> (#[trigger] self.byte_vocab@[b])@ == byte_token(b as u8)
    }

    /// Ids of a text.
    pub open spec fn encode_spec(&self, text: Seq<char>, add: bool) -> Seq<usize> {
        opt_special(add, self.config_view().bos_token_id) + words_ids(
            self.vocab_view(),
            self.merges_view(),
            self.config_view().unk_token_id,
            split_ws(text),
        ) + opt_special(add, self.config_view().eos_token_id)
    }
}

/// The byte table: the token of each byte value.
pub fn build_byte_vocab() -> (r: Vec<String>)
    ensures
        r@.len() == 256,
        forall|b: int| 0 <= b < 256 ==> (#[trigger] r@[b])@ == byte_token(b as u8),
{
    let mut r: Vec<String> = Vec::new();
    let mut i: u32 = 0;
    while i < 256
        invariant
            i <= 256,
            r@.len() == i,
            forall|b: int| 0 <= b < i ==> (#[trigger] r@[b])@ == byte_token(b as u8),
        decreases 256 - i,
    {
        let b = i as u8;
        if b < 128 {
            r.push(char_string(b as char));
        } else {
            r.push(hex_token_string(b));
        }
        i += 1;
    }
    r
}

/// The UTF-8 bytes of a text.
pub fn text_to_bytes(text: &str) -> (r: Vec<u8>)
    ensures
        r@ == encode_utf8(text@),
{
    let b = text.as_bytes();
    vstd::slice::slice_to_vec(b)
}

proof fn lemma_merge_pass_len(w: Seq<Seq<char>>, merges: Seq<(Seq<char>, Seq<char>)>)
    ensures
        merge_pass(w, merges).1 ==> merge_pass(w, merges).0.len() < w.len(),
        merge_pass(w, merges).0.len() <= w.len(),
    decreases merges.len(),
{
    if merges.len() > 0 {
        lemma_merge_pass_len(w, merges.drop_last());
        let (w1, c1) = merge_pass(w, merges.drop_last());
        lemma_pair_scan_len(w1, merges.last().0, merges.last().1, merges.last().0 + merges.last().1, 0);
    }
}

impl BPETokenizer {
    /// BPE tokens of one word.
    fn bpe_tokenize(&self, word: &str) -> (r: Vec<String>)
        requires
            self.wf(),
        ensures
            views(r@) == bpe_word(word@, self.merges_view()),
    {
        let bytes = text_to_bytes(word);
        let mut tokens: Vec<String> = Vec::new();
        let mut k: usize = 0;
        while k < bytes.len()
            invariant
                self.wf(),
                k <= bytes@.len(),
                views(tokens@) == byte_tokens(bytes@).take(k as int),
            decreases bytes.len() - k,
        {
            let t = self.byte_vocab[bytes[k] as usize].clone();
            proof {
                assert(self.byte_vocab@[bytes@[k as int] as int]@ == byte_token(bytes@[k as int]));
            }
            let ghost prev = views(tokens@);
            tokens.push(t);
            assert(views(tokens@) =~= prev.push(t@));
            assert(views(tokens@) =~= byte_tokens(bytes@).take(k + 1));
            k += 1;
        }
        assert(byte_tokens(bytes@).take(bytes@.len() as int) =~= byte_tokens(bytes@));
        let ghost merges = self.merges_view();
        let mut new_tokens = true;
        while new_tokens
            invariant
                bpe_merge(views(tokens@), merges) == bpe_word(word@, merges),
                merges == self.merges_view(),
                merges.len() == self.merges@.len(),
                !new_tokens ==> merge_pass(views(tokens@), merges) == (views(tokens@), false),
            decreases views(tokens@).len() * 2 + (if new_tokens {
                1int
            } else {
                0int
            }),
        {
            let ghost w0 = views(tokens@);
            new_tokens = false;
            let mut m: usize = 0;
            while m < self.merges.len()
                invariant
                    0 <= m <= self.merges@.len(),
                    merges == self.merges_view(),
                    merges.len() == self.merges@.len(),
                    (views(tokens@), new_tokens) == merge_pass(w0, merges.take(m as int)),
                decreases self.merges.len() - m,
            {
                let merged = concat_strings(self.merges[m].0.as_str(), self.merges[m].1.as_str());
                let changed = pair_scan_exec(&mut tokens, &self.merges[m].0, &self.merges[m].1, &merged);
                proof {
                    assert(merges.take(m + 1).drop_last() =~= merges.take(m as int));
                    assert(merges.take(m + 1).last() == merges[m as int]);
                }
                new_tokens = new_tokens || changed;
                m += 1;
            }
            proof {
                assert(merges.take(merges.len() as int) =~= merges);
                lemma_merge_pass_len(w0, merges);
                if !new_tokens {
                    // a pass that merges nothing leaves the word as it is
                    lemma_pass_unchanged(w0, merges);
                }
            }
        }
        tokens
    }
}


/// `parse_hex2` on characters.
fn parse_hex2_exec(c1: char, c2: char) -> (r: Option<u8>)
    ensures
        r == parse_hex2(c1, c2),
{
    if c1 == '+' {
        hex_value_exec(c2)
    } else {
        match (hex_value_exec(c1), hex_value_exec(c2)) {
            (Some(h), Some(l)) => Some(h * 16 + l),
            _ => None,
        }
    }
}

/// `hex_value` on a character.
fn hex_value_exec(c: char) -> (r: Option<u8>)
    ensures
        r == hex_value(c),
        r matches Some(v) ==> v < 16,
{
    if '0' <= c && c <= '9' {
        Some((c as u32 - 48) as u8)
    } else if 'a' <= c && c <= 'f' {
        Some((c as u32 - 87) as u8)
    } else if 'A' <= c && c <= 'F' {
        Some((c as u32 - 55) as u8)
    } else {
        None
    }
}

impl BPETokenizer {
    /// Ids of `text`, framed by BOS and EOS when `add_special_tokens` is set.
    fn encode_ids(&self, text: &str, add_special_tokens: bool) -> (r: Vec<usize>)
        requires
            self.wf(),
        ensures
            r@ == self.encode_spec(text@, add_special_tokens),
    {
        let mut tokens: Vec<usize> = Vec::new();
        if add_special_tokens {
            if let Some(bos_id) = self.config.bos_token_id {
                tokens.push(bos_id);
            }
        }
        assert(tokens@ =~= opt_special(add_special_tokens, self.config.bos_token_id));
        let chars = to_chars(text);
        let words = split_whitespace(chars.as_slice());
        let ghost ws = split_ws(text@);
        let ghost base = opt_special(add_special_tokens, self.config.bos_token_id);
        let ghost vmap = self.vocab@;
        let ghost unk = self.config.unk_token_id;
        let ghost merges = self.merges_view();
        let mut wi: usize = 0;
        while wi < words.len()
            invariant
                self.wf(),
                words.deep_view() == ws,
                wi <= words@.len(),
                vmap == self.vocab@,
                unk == self.config.unk_token_id,
                merges == self.merges_view(),
                tokens@ == base + words_ids(vmap, merges, unk, ws.take(wi as int)),
            decreases words.len() - wi,
        {
            let word = string_of(words[wi].as_slice());
            assert(word@ == ws[wi as int]) by {
                assert(words.deep_view()[wi as int] =~= words@[wi as int]@);
            }
            let wt = self.bpe_tokenize(word.as_str());
            let ghost start = tokens@;
            let mut ti: usize = 0;
            while ti < wt.len()
                invariant
                    self.wf(),
                    ti <= wt@.len(),
                    vmap == self.vocab@,
                    unk == self.config.unk_token_id,
                    tokens@ == start + token_ids(vmap, unk, views(wt@).take(ti as int)),
                decreases wt.len() - ti,
            {
                assert(views(wt@).take(ti + 1).drop_last() =~= views(wt@).take(ti as int));
                assert(views(wt@).take(ti + 1).last() == wt@[ti as int]@);
                match self.vocab.get(wt[ti].as_str()) {
                    Some(id) => {
                        tokens.push(id);
                    },
                    None => {
                        if let Some(unk_id) = self.config.unk_token_id {
                            tokens.push(unk_id);
                        }
                    },
                }
                assert(tokens@ =~= start + token_ids(vmap, unk, views(wt@).take(ti + 1)));
                ti += 1;
            }
            assert(views(wt@).take(wt@.len() as int) =~= views(wt@));
            assert(ws.take(wi + 1).drop_last() =~= ws.take(wi as int));
            assert(tokens@ =~= base + words_ids(vmap, merges, unk, ws.take(wi + 1)));
            wi += 1;
        }
        assert(ws.take(ws.len() as int) =~= ws);
        let ghost mid = tokens@;
        if add_special_tokens {
            if let Some(eos_id) = self.config.eos_token_id {
                tokens.push(eos_id);
            }
        }
        assert(tokens@ =~= mid + opt_special(add_special_tokens, self.config.eos_token_id));
        tokens
    }

    /// Text of ids.
    fn decode_ids(&self, ids: &[usize]) -> (r: String)
        requires
            decodable(self.inverse_view(), ids@),
        ensures
            r@ == decode_text(self.inverse_view(), ids@),
    {
        let ghost inv = self.inverse_view();
        let mut text = String::new();
        let mut k: usize = 0;
        while k < ids.len()
            invariant
                k <= ids@.len(),
                inv == self.inverse_view(),
                decodable(inv, ids@),
                text@ == decode_text(inv, ids@.take(k as int)),
            decreases ids.len() - k,
        {
            let ghost before = text@;
            assert(ids@.take(k + 1).drop_last() =~= ids@.take(k as int));
            let id = ids[k];
            if id < self.inverse_vocab.len() {
                let t = to_chars(self.inverse_vocab[id].as_str());
                assert(t@ == inv[id as int]);
                let n = t.len();
                if n >= 4 && t[0] == '<' && t[1] == '0' && t[2] == 'x' && t[n - 1] == '}' {
                    assert(is_brace_hex(inv[ids@[k as int] as int]));
                    if (t[3] as u32) < 0x80 {
                        match parse_hex2_exec(t[3], t[4]) {
                            Some(b) => {
                                push_char(&mut text, b as char);
                            },
                            None => {},
                        }
                    }
                } else {
                    text.append(self.inverse_vocab[id].as_str());
                }
            }
            assert(text@ =~= decode_text(inv, ids@.take(k + 1)));
            k += 1;
        }
        assert(ids@.take(ids@.len() as int) =~= ids@);
        text
    }

    /// Ids that are not special tokens.
    fn non_special(&self, ids: &[usize]) -> (r: Vec<usize>)
        ensures
            r@ == ids@.filter(non_special(self.config)),
    {
        let ghost pred = non_special(self.config);
        let mut r: Vec<usize> = Vec::new();
        let mut k: usize = 0;
        while k < ids.len()
            invariant
                k <= ids@.len(),
                pred == non_special(self.config),
                r@ == ids@.take(k as int).filter(pred),
            decreases ids.len() - k,
        {
            proof {
                reveal(Seq::filter);
                assert(ids@.take(k + 1).drop_last() =~= ids@.take(k as int));
            }
            let id = ids[k];
            let c = self.config;
            let special = c.pad_token_id == Some(id) || c.bos_token_id == Some(id)
                || c.eos_token_id == Some(id) || c.unk_token_id == Some(id) || c.sep_token_id
                == Some(id) || c.cls_token_id == Some(id) || c.mask_token_id == Some(id);
            if !special {
                r.push(id);
            }
            k += 1;
        }
        assert(ids@.take(ids@.len() as int) =~= ids@);
        r
    }
}

impl Tokenizer for BPETokenizer {
    open spec fn inv(&self) -> bool {
        self.wf()
    }

    open spec fn encoding(&self, text: Seq<char>, add_special_tokens: bool) -> Seq<usize> {
        self.encode_spec(text, add_special_tokens)
    }

    /// Encoding never fails.
    open spec fn encode_failure(&self, text: Seq<char>, add_special_tokens: bool) -> Option<LLMError> {
        None
    }

    open spec fn decoding(&self, ids: Seq<usize>) -> Seq<char> {
        decode_text(self.inverse_view(), ids)
    }

    /// Decoding never fails.
    open spec fn decode_failure(&self, ids: Seq<usize>) -> Option<LLMError> {
        None
    }

    open spec fn can_decode(&self, ids: Seq<usize>) -> bool {
        decodable(self.inverse_view(), ids)
    }

    open spec fn spec_config(&self) -> TokenizerConfig {
        self.config_view()
    }

    fn encode(&self, text: &str) -> (r: Result<Vec<usize>, LLMError>) {
        self.encode_with_config(text, true)
    }

    fn encode_with_config(&self, text: &str, add_special_tokens: bool) -> (r: Result<
        Vec<usize>,
        LLMError,
    >) {
        Ok(self.encode_ids(text, add_special_tokens))
    }

    fn decode(&self, ids: &[usize]) -> (r: Result<String, LLMError>) {
        Ok(self.decode_ids(ids))
    }

    fn decode_skip_special_tokens(&self, ids: &[usize]) -> (r: Result<String, LLMError>) {
        let filtered = self.non_special(ids);
        self.decode(filtered.as_slice())
    }

    fn vocab_size(&self) -> (r: usize) {
        self.config.vocab_size
    }

    fn config(&self) -> (r: &TokenizerConfig) {
        &self.config
    }
}

/// The result for given ids: an all-ones attention mask and positions `0..n`.
pub open spec fn framed_result(res: TokenizeResult, ids: Seq<usize>) -> bool {
    &&& res.input_ids@ == ids
    &&& res.attention_mask matches Some(m) && m@ == Seq::new(ids.len(), |i: int| 1usize)
    &&& res.position_ids matches Some(p) && p@ == Seq::new(ids.len(), |i: int| i as usize)
    &&& res.token_type_ids is None
}

/// Frames token ids with their attention mask and positions.
fn frame_ids(input_ids: Vec<usize>) -> (r: TokenizeResult)
    ensures
        framed_result(r, input_ids@),
{
    let n = input_ids.len();
    let mut mask: Vec<usize> = Vec::new();
    let mut pos: Vec<usize> = Vec::new();
    let mut i: usize = 0;
    while i < n
        invariant
            i <= n,
            mask@ == Seq::new(i as nat, |j: int| 1usize),
            pos@ == Seq::new(i as nat, |j: int| j as usize),
        decreases n - i,
    {
        mask.push(1);
        pos.push(i);
        assert(mask@ =~= Seq::new((i + 1) as nat, |j: int| 1usize));
        assert(pos@ =~= Seq::new((i + 1) as nat, |j: int| j as usize));
        i += 1;
    }
    TokenizeResult {
        input_ids,
        attention_mask: Some(mask),
        position_ids: Some(pos),
        token_type_ids: None,
    }
}

/// Tokenizes a text: ids with special tokens, an all-ones attention mask and
/// positions `0..n`.  An encoding error is passed on.
pub fn tokenize<T: Tokenizer + ?Sized>(text: &str, tokenizer: &T) -> (r: Result<TokenizeResult, LLMError>)
    requires
        tokenizer.inv(),
    ensures
        match tokenizer.encode_failure(text@, true) {
            Some(e) => r == Err::<TokenizeResult, LLMError>(e),
            None => r matches Ok(res) && framed_result(res, tokenizer.encoding(text@, true)),
        },
{
    let input_ids = tokenizer.encode(text)?;
    Ok(frame_ids(input_ids))
}

/// Whether the texts before position `n` all encode.
pub open spec fn all_encode<T: Tokenizer + ?Sized>(tokenizer: &T, texts: Seq<String>, n: int) -> bool {
    forall|j: int| 0 <= j < n ==> (#[trigger] tokenizer.encode_failure(texts[j]@, true)) is None
}

/// Tokenizes each text in turn; the first encoding error is passed on.
pub fn batch_tokenize<T: Tokenizer + ?Sized>(texts: &[String], tokenizer: &T) -> (r: Result<
    Vec<TokenizeResult>,
    LLMError,
>)
    requires
        tokenizer.inv(),
    ensures
        r is Ok <==> all_encode(tokenizer, texts@, texts@.len() as int),
        r matches Ok(v) ==> v@.len() == texts@.len() && forall|i: int|
            0 <= i < texts@.len() ==> framed_result(
                #[trigger] v@[i],
                tokenizer.encoding(texts@[i]@, true),
            ),
        r matches Err(e) ==> exists|i: int|
            0 <= i < texts@.len() && all_encode(tokenizer, texts@, i)
                && #[trigger] tokenizer.encode_failure(texts@[i]@, true) == Some(e),
{
    let mut out: Vec<TokenizeResult> = Vec::new();
    let mut i: usize = 0;
    while i < texts.len()
        invariant
            tokenizer.inv(),
            i <= texts@.len(),
            out@.len() == i,
            all_encode(tokenizer, texts@, i as int),
            forall|j: int|
                0 <= j < i ==> framed_result(
                    #[trigger] out@[j],
                    tokenizer.encoding(texts@[j]@, true),
                ),
        decreases texts.len() - i,
    {
        let ids = match tokenizer.encode(texts[i].as_str()) {
            Ok(v) => v,
            Err(e) => {
                assert(tokenizer.encode_failure(texts@[i as int]@, true) == Some(e));
                return Err(e);
            },
        };
        out.push(frame_ids(ids));
        i += 1;
    }
    Ok(out)
}

// ----------------------------------------------------------------------
// Building vocabularies
// ----------------------------------------------------------------------


/// The tokens `<0x00>` .. `<0xHH>` for the first `n` byte values.
pub open spec fn hex_tokens(n: nat) -> Seq<Seq<char>> {
    Seq::new(n, |b: int| hex_token(b as u8))
}

/// The one-character tokens `'!'` ..= `'z'`.
pub open spec fn printable_tokens() -> Seq<Seq<char>> {
    Seq::new(90, |k: int| seq![(33 + k) as char])
}

/// Special tokens of the GPT-2 tokenizer, ids 0..4.
pub open spec fn gpt2_special_tokens() -> Seq<Seq<char>> {
    seq!["<|endoftext|>"@, "<|pad|>"@, "<|startoftranscript|>"@, "<|endoftranscript|>"@]
}

/// All GPT-2 tokens in id order: specials, the 256 byte tokens, then the
/// characters `'!'` ..= `'z'`.
pub open spec fn gpt2_tokens() -> Seq<Seq<char>> {
    gpt2_special_tokens() + hex_tokens(256) + printable_tokens()
}

/// Special tokens of the LLaMA tokenizer, ids 0..12.
pub open spec fn llama_special_tokens() -> Seq<Seq<char>> {
    seq![
        "<unk>"@,
        "<s>"@,
        "</s>"@,
        "<|pad|>"@,
        "<|bos|>"@,
        "<|eos|>"@,
        "<|system|>"@,
        "<|user|>"@,
        "<|assistant|>"@,
        "<|observ|>"@,
        "<|action|>"@,
        "<|result|>"@,
    ]
}

/// LLaMA vocabulary entries in insertion order: the specials numbered 0..12,
/// then the byte tokens numbered `12 + b`, except that the tokens of the 32
/// control bytes were inserted again with id 268 (the vocabulary size), which
/// replaced their first id.
pub open spec fn llama_pairs() -> Seq<(Seq<char>, usize)> {
    Seq::new(
        268,
        |i: int|
            if i < 12 {
                (llama_special_tokens()[i], i as usize)
            } else if i < 44 {
                (hex_token((i - 12) as u8), 268usize)
            } else {
                (hex_token((i - 12) as u8), i as usize)
            },
    )
}

/// The LLaMA inverse vocabulary: specials, then 32 empty slots (ids left
/// without token), then the byte tokens of bytes 32..256.
pub open spec fn llama_inverse() -> Seq<Seq<char>> {
    Seq::new(
        268,
        |i: int|
            if i < 12 {
                llama_special_tokens()[i]
            } else if i < 44 {
                Seq::<char>::empty()
            } else {
                hex_token((i - 12) as u8)
            },
    )
}

/// Configuration of a generated tokenizer: the default with the given size
/// and special ids.
pub open spec fn sized_config(
    size: usize,
    pad: Option<usize>,
    bos: Option<usize>,
    eos: Option<usize>,
    unk: Option<usize>,
) -> TokenizerConfig {
    TokenizerConfig {
        vocab_size: size,
        pad_token_id: pad,
        bos_token_id: bos,
        eos_token_id: eos,
        unk_token_id: unk,
        ..default_tokenizer_config()
    }
}

/// Inverse vocabulary of size `size`: slot `i` holds a token whose id is `i`
/// when there is one, else the empty string.
pub open spec fn is_inverse_of(inv: Seq<Seq<char>>, vocab: Map<Seq<char>, usize>, size: nat) -> bool {
    &&& inv.len() == size
    &&& forall|i: int|
        0 <= i < size ==> {
            if exists|k: Seq<char>| vocab.contains_key(k) && vocab[k] == i {
                vocab.contains_key(#[trigger] inv[i]) && vocab[inv[i]] == i
            } else {
                inv[i] == Seq::<char>::empty()
            }
        }
}

/// The inverse of `vocab` over ids `0..size`.
pub fn build_inverse(vocab: &StrMap, size: usize) -> (r: Vec<String>)
    requires
        vocab.wf(),
    ensures
        is_inverse_of(views(r@), vocab@, size as nat),
{
    let mut inv: Vec<String> = Vec::new();
    let mut i: usize = 0;
    while i < size
        invariant
            i <= size,
            inv@.len() == i,
            forall|j: int| 0 <= j < i ==> (#[trigger] inv@[j])@ == Seq::<char>::empty(),
        decreases size - i,
    {
        inv.push(String::new());
        i += 1;
    }
    let ghost pairs = vocab.pairs();
    let n = vocab.entry_count();
    let mut e: usize = 0;
    while e < n
        invariant
            n == pairs.len(),
            pairs == vocab.pairs(),
            vocab.wf(),
            e <= n,
            inv@.len() == size,
            forall|j: int|
                0 <= j < size ==> {
                    if exists|x: int| 0 <= x < e && pairs[x].1 == j {
                        exists|x: int|
                            0 <= x < e && pairs[x].1 == j && pairs[x].0 == (#[trigger] inv@[j])@
                    } else {
                        inv@[j]@ == Seq::<char>::empty()
                    }
                },
        decreases n - e,
    {
        let id = vocab.value_at(e);
        if id < size {
            let tok = vocab.key_at(e).clone();
            inv.set(id, tok);
        }
        proof {
            assert forall|j: int| 0 <= j < size implies {
                if exists|x: int| 0 <= x < e + 1 && pairs[x].1 == j {
                    exists|x: int|
                        0 <= x < e + 1 && pairs[x].1 == j && pairs[x].0 == (#[trigger] inv@[j])@
                } else {
                    inv@[j]@ == Seq::<char>::empty()
                }
            } by {
                if j == id {
                    assert(pairs[e as int].1 == j && pairs[e as int].0 == inv@[j]@);
                } else if exists|x: int| 0 <= x < e && pairs[x].1 == j {
                    let x = choose|x: int| 0 <= x < e && pairs[x].1 == j && pairs[x].0 == inv@[j]@;
                    assert(0 <= x < e + 1 && pairs[x].1 == j && pairs[x].0 == inv@[j]@);
                } else {
                    assert forall|x: int| 0 <= x < e + 1 implies pairs[x].1 != j by {
                        if x < e {
                        } else {
                            assert(pairs[x].1 == id);
                        }
                    }
                }
            }
        }
        e += 1;
    }
    proof {
        assert forall|j: int| 0 <= j < size implies {
            if exists|k: Seq<char>| vocab@.contains_key(k) && vocab@[k] == j {
                vocab@.contains_key(#[trigger] views(inv@)[j]) && vocab@[views(inv@)[j]] == j
            } else {
                views(inv@)[j] == Seq::<char>::empty()
            }
        } by {
            if exists|k: Seq<char>| vocab@.contains_key(k) && vocab@[k] == j {
                let k = choose|k: Seq<char>| vocab@.contains_key(k) && vocab@[k] == j;
                crate::strmap::lemma_map_of_contains(pairs, k);
                let x0 = choose|x: int| 0 <= x < pairs.len() && pairs[x].0 == k;
                crate::strmap::lemma_map_of_value(pairs, x0);
                let x = choose|x: int| 0 <= x < n && pairs[x].1 == j && pairs[x].0 == inv@[j]@;
                crate::strmap::lemma_map_of_value(pairs, x);
            } else {
                if exists|x: int| 0 <= x < n && pairs[x].1 == j {
                    let x = choose|x: int| 0 <= x < n && pairs[x].1 == j;
                    crate::strmap::lemma_map_of_value(pairs, x);
                }
            }
        }
    }
    inv
}

/// Inserts `tokens[i]` with id `first + i`, for each `i` in order.
fn insert_numbered(vocab: &mut StrMap, tokens: &[&str], first: usize)
    requires
        old(vocab).wf(),
        first + tokens@.len() <= usize::MAX,
        forall|i: int, j: int| 0 <= i < j < tokens@.len() ==> tokens@[i]@ != tokens@[j]@,
        forall|i: int| 0 <= i < tokens@.len() ==> !old(vocab)@.contains_key(#[trigger] tokens@[i]@),
    ensures
        final(vocab).wf(),
        final(vocab).pairs() == old(vocab).pairs() + numbered(
            tokens@.map_values(|t: &str| t@),
            first as int,
        ),
{
    let ghost toks = tokens@.map_values(|t: &str| t@);
    let ghost start = vocab.pairs();
    let mut i: usize = 0;
    while i < tokens.len()
        invariant
            vocab.wf(),
            i <= tokens@.len(),
            first + tokens@.len() <= usize::MAX,
            toks == tokens@.map_values(|t: &str| t@),
            forall|a: int, b: int| 0 <= a < b < tokens@.len() ==> tokens@[a]@ != tokens@[b]@,
            forall|a: int| 0 <= a < tokens@.len() ==> !old(vocab)@.contains_key(#[trigger] tokens@[a]@),
            start == old(vocab).pairs(),
            old(vocab).wf(),
            vocab.pairs() == start + numbered(toks, first as int).take(i as int),
        decreases tokens.len() - i,
    {
        proof {
            crate::strmap::lemma_map_of_contains(vocab.pairs(), tokens@[i as int]@);
            crate::strmap::lemma_map_of_contains(start, tokens@[i as int]@);
            if exists|e: int| 0 <= e < vocab.pairs().len() && vocab.pairs()[e].0 == tokens@[i as int]@ {
                let e = choose|e: int|
                    0 <= e < vocab.pairs().len() && vocab.pairs()[e].0 == tokens@[i as int]@;
                if e < start.len() {
                    assert(start[e].0 == tokens@[i as int]@);
                } else {
                    assert(vocab.pairs()[e] == numbered(toks, first as int)[e - start.len()]);
                }
            }
        }
        vocab.insert(tokens[i].to_owned(), first + i);
        assert(vocab.pairs() =~= start + numbered(toks, first as int).take(i + 1));
        i += 1;
    }
    assert(numbered(toks, first as int).take(tokens@.len() as int) =~= numbered(toks, first as int));
}

impl BPETokenizer {
    /// The vocabulary is the map of its entries.
    pub proof fn lemma_vocab_view(&self)
        ensures
            self.vocab_view() == crate::strmap::map_of(self.vocab_pairs()),
    {
    }
}

/// Builds the GPT-2 style tokenizer: four special tokens, the 256 byte tokens
/// and the printable characters `'!'` ..= `'z'`, numbered in that order, no
/// merge rules; EOS is 0 and PAD is 1, no BOS.
pub fn create_gpt2_tokenizer() -> (r: Result<BPETokenizer, LLMError>)
    ensures
        r matches Ok(t) && {
            &&& t.wf()
            &&& t.vocab_pairs() == numbered(gpt2_tokens(), 0)
            &&& t.inverse_view() == gpt2_tokens()
            &&& t.merges_view().len() == 0
            &&& t.config_view() == sized_config(350, Some(1), None, Some(0), Some(0))
        },
{
    let mut vocab = StrMap::new();
    let special_tokens: [&str; 4] = [
        "<|endoftext|>",
        "<|pad|>",
        "<|startoftranscript|>",
        "<|endoftranscript|>",
    ];
    proof {
        lemma_gpt2_specials();
        assert(special_tokens@.map_values(|t: &str| t@) =~= gpt2_special_tokens());
    }
    insert_numbered(&mut vocab, &special_tokens, 0);
    let ghost specials = numbered(gpt2_special_tokens(), 0);
    assert(vocab.pairs() =~= specials);
    let mut i: u32 = 0;
    while i < 256
        invariant
            vocab.wf(),
            i <= 256,
            specials == numbered(gpt2_special_tokens(), 0),
            vocab.pairs() == specials + numbered(hex_tokens(i as nat), 4),
        decreases 256 - i,
    {
        let tok = hex_token_string(i as u8);
        let id = vocab.len();
        proof {
            lemma_gpt2_specials();
            let p = vocab.pairs();
            crate::strmap::lemma_map_of_contains(p, hex_token(i as u8));
            assert forall|e: int| 0 <= e < p.len() implies p[e].0 != hex_token(i as u8) by {
                if e < 4 {
                    assert(p[e] == specials[e]);
                    assert(p[e].0.len() != 6);
                } else {
                    let b = e - 4;
                    assert(p[e] == numbered(hex_tokens(i as nat), 4)[e - 4]);
                    assert(p[e].0 == hex_token(b as u8));
                    assert(hex_token(b as u8)[3] == hex_digit((b as u8) / 16));
                    assert(hex_token(b as u8)[4] == hex_digit((b as u8) % 16));
                    if hex_token(b as u8) == hex_token(i as u8) {
                        assert(hex_digit((b as u8) / 16) == hex_digit((i as u8) / 16));
                        assert(hex_digit((b as u8) % 16) == hex_digit((i as u8) % 16));
                    }
                }
            }
        }
        vocab.insert(tok, id);
        assert(vocab.pairs() =~= specials + numbered(hex_tokens((i + 1) as nat), 4));
        i += 1;
    }
    let ghost with_bytes = vocab.pairs();
    let mut c: u32 = 33;
    while c <= 122
        invariant
            vocab.wf(),
            33 <= c <= 123,
            specials == numbered(gpt2_special_tokens(), 0),
            with_bytes == specials + numbered(hex_tokens(256), 4),
            vocab.pairs() == with_bytes + numbered(printable_tokens().take(c - 33), 260),
        decreases 123 - c,
    {
        let s = char_string((c as u8) as char);
        let present = vocab.contains_key(s.as_str());
        proof {
            lemma_gpt2_specials();
            let p = vocab.pairs();
            crate::strmap::lemma_map_of_contains(p, s@);
            assert forall|e: int| 0 <= e < p.len() implies p[e].0 != s@ by {
                if e < 4 {
                    assert(p[e] == specials[e]);
                    assert(p[e].0.len() != 1);
                } else if e < 260 {
                    assert(p[e] == numbered(hex_tokens(256), 4)[e - 4]);
                    assert(p[e].0.len() != 1);
                } else {
                    assert(p[e] == numbered(printable_tokens().take(c - 33), 260)[e - 260]);
                    assert(p[e].0 == seq![(33 + (e - 260)) as char]);
                    assert(p[e].0[0] != s@[0]);
                }
            }
        }
        if !present {
            let id = vocab.len();
            vocab.insert(s, id);
        }
        assert(vocab.pairs() =~= with_bytes + numbered(printable_tokens().take(c - 32), 260));
        c += 1;
    }
    assert(printable_tokens().take(90) =~= printable_tokens());
    assert(vocab.pairs() =~= numbered(gpt2_tokens(), 0));
    let vocab_size = vocab.len();
    let inverse_vocab = build_inverse(&vocab, vocab_size);
    proof {
        lemma_numbered_inverse(gpt2_tokens(), views(inverse_vocab@));
    }
    let byte_vocab = build_byte_vocab();
    let mut config = TokenizerConfig::default();
    config.vocab_size = vocab_size;
    config.bos_token_id = None;
    config.eos_token_id = Some(0);
    config.pad_token_id = Some(1);
    Ok(BPETokenizer { vocab, inverse_vocab, merges: Vec::new(), config, byte_vocab })
}

/// With tokens numbered 0.. and no token twice, the inverse is the token list.
proof fn lemma_numbered_inverse(tokens: Seq<Seq<char>>, inv: Seq<Seq<char>>)
    requires
        tokens.len() <= usize::MAX,
        distinct_keys_of(numbered(tokens, 0)),
        is_inverse_of(inv, crate::strmap::map_of(numbered(tokens, 0)), tokens.len()),
    ensures
        inv == tokens,
{
    let pairs = numbered(tokens, 0);
    assert forall|i: int| 0 <= i < tokens.len() implies inv[i] == tokens[i] by {
        crate::strmap::lemma_map_of_value(pairs, i);
        assert(pairs[i].0 == tokens[i]);
        assert(pairs[i].1 == i as usize);
        let m = crate::strmap::map_of(pairs);
        assert(m.contains_key(tokens[i]) && m[tokens[i]] == i);
        assert(m.contains_key(inv[i]) && m[inv[i]] == i);
        let k = inv[i];
        crate::strmap::lemma_map_of_contains(pairs, k);
        let e = choose|e: int| 0 <= e < pairs.len() && pairs[e].0 == k;
        crate::strmap::lemma_map_of_value(pairs, e);
    }
    assert(inv =~= tokens);
}

proof fn lemma_gpt2_specials()
    ensures
        gpt2_special_tokens()[0].len() == 13,
        gpt2_special_tokens()[1].len() == 7,
        gpt2_special_tokens()[2].len() == 21,
        gpt2_special_tokens()[3].len() == 19,
        gpt2_special_tokens().len() == 4,
        forall|i: int, j: int|
            0 <= i < j < 4 ==> gpt2_special_tokens()[i] != gpt2_special_tokens()[j],
{
    reveal_strlit("<|endoftext|>");
    reveal_strlit("<|pad|>");
    reveal_strlit("<|startoftranscript|>");
    reveal_strlit("<|endoftranscript|>");
    let t = gpt2_special_tokens();
    assert(t[0].len() == 13 && t[1].len() == 7 && t[2].len() == 21 && t[3].len() == 19);
    assert forall|i: int, j: int| 0 <= i < j < 4 implies t[i] != t[j] by {
        assert(t[i].len() != t[j].len());
    }
}


proof fn lemma_llama_specials()
    ensures
        llama_special_tokens().len() == 12,
        forall|i: int| 0 <= i < 12 ==> (#[trigger] llama_special_tokens()[i]).len() != 6,
        forall|i: int, j: int|
            0 <= i < j < 12 ==> llama_special_tokens()[i] != llama_special_tokens()[j],
{
    reveal_strlit("<unk>");
    reveal_strlit("<s>");
    reveal_strlit("</s>");
    reveal_strlit("<|pad|>");
    reveal_strlit("<|bos|>");
    reveal_strlit("<|eos|>");
    reveal_strlit("<|system|>");
    reveal_strlit("<|user|>");
    reveal_strlit("<|assistant|>");
    reveal_strlit("<|observ|>");
    reveal_strlit("<|action|>");
    reveal_strlit("<|result|>");
    let t = llama_special_tokens();
    assert(t[0].len() == 5 && t[1].len() == 3 && t[2].len() == 4 && t[3].len() == 7 && t[4].len()
        == 7 && t[5].len() == 7 && t[6].len() == 10 && t[7].len() == 8 && t[8].len() == 13
        && t[9].len() == 10 && t[10].len() == 10 && t[11].len() == 10);
    assert(t[3][2] == 'p' && t[4][2] == 'b' && t[5][2] == 'e');
    assert(t[6][2] == 's' && t[9][2] == 'o' && t[10][2] == 'a' && t[11][2] == 'r');
    assert forall|i: int, j: int| 0 <= i < j < 12 implies t[i] != t[j] by {
        if t[i].len() == t[j].len() {
            assert(t[i][2] != t[j][2]);
        }
    }
}

/// The LLaMA vocabulary before the control-byte tokens are inserted again.
pub open spec fn llama_pairs_upto(n: int) -> Seq<(Seq<char>, usize)> {
    Seq::new(
        268,
        |e: int|
            if e < 12 {
                (llama_special_tokens()[e], e as usize)
            } else if e - 12 < n {
                (hex_token((e - 12) as u8), 268usize)
            } else {
                (hex_token((e - 12) as u8), e as usize)
            },
    )
}

proof fn lemma_hex_token_injective(a: u8, b: u8)
    ensures
        hex_token(a) == hex_token(b) ==> a == b,
{
    if hex_token(a) == hex_token(b) {
        assert(hex_token(a)[3] == hex_token(b)[3]);
        assert(hex_token(a)[4] == hex_token(b)[4]);
    }
}

/// Builds the LLaMA style tokenizer: twelve special tokens (ids 0..12), the
/// 256 byte tokens (ids `12 + b`), after which the tokens of bytes 0..32 are
/// inserted again with the current vocabulary size 268 as id; no merge rules;
/// BOS 1, EOS 2, UNK 0.
pub fn create_llama_tokenizer() -> (r: Result<BPETokenizer, LLMError>)
    ensures
        r matches Ok(t) && {
            &&& t.wf()
            &&& t.vocab_pairs() == llama_pairs()
            &&& t.inverse_view() == llama_inverse()
            &&& t.merges_view().len() == 0
            &&& t.config_view() == sized_config(268, None, Some(1), Some(2), Some(0))
        },
{
    let mut vocab = StrMap::new();
    let special_tokens: [&str; 12] = [
        "<unk>",
        "<s>",
        "</s>",
        "<|pad|>",
        "<|bos|>",
        "<|eos|>",
        "<|system|>",
        "<|user|>",
        "<|assistant|>",
        "<|observ|>",
        "<|action|>",
        "<|result|>",
    ];
    proof {
        lemma_llama_specials();
        assert(special_tokens@.map_values(|t: &str| t@) =~= llama_special_tokens());
    }
    insert_numbered(&mut vocab, &special_tokens, 0);
    let ghost specials = numbered(llama_special_tokens(), 0);
    assert(vocab.pairs() =~= specials);
    let mut i: u32 = 0;
    while i < 256
        invariant
            vocab.wf(),
            i <= 256,
            specials == numbered(llama_special_tokens(), 0),
            vocab.pairs() == specials + numbered(hex_tokens(i as nat), 12),
        decreases 256 - i,
    {
        let tok = hex_token_string(i as u8);
        let id = vocab.len();
        proof {
            lemma_llama_specials();
            let p = vocab.pairs();
            crate::strmap::lemma_map_of_contains(p, hex_token(i as u8));
            assert forall|e: int| 0 <= e < p.len() implies p[e].0 != hex_token(i as u8) by {
                if e < 12 {
                    assert(p[e] == specials[e]);
                    assert(p[e].0.len() != 6);
                } else {
                    assert(p[e] == numbered(hex_tokens(i as nat), 12)[e - 12]);
                    lemma_hex_token_injective((e - 12) as u8, i as u8);
                }
            }
        }
        vocab.insert(tok, id);
        assert(vocab.pairs() =~= specials + numbered(hex_tokens((i + 1) as nat), 12));
        i += 1;
    }
    assert(vocab.pairs() =~= llama_pairs_upto(0));
    let mut j: u32 = 0;
    while j < 32
        invariant
            vocab.wf(),
            j <= 32,
            vocab.pairs() == llama_pairs_upto(j as int),
        decreases 32 - j,
    {
        let tok = hex_token_string(j as u8);
        let id = vocab.len();
        let ghost p = vocab.pairs();
        proof {
            assert(p[12 + j as int].0 == hex_token(j as u8));
            crate::strmap::lemma_map_of_contains(p, hex_token(j as u8));
        }
        vocab.insert(tok, id);
        proof {
            let x = choose|x: int|
                0 <= x < p.len() && p[x].0 == hex_token(j as u8) && vocab.pairs() == p.update(
                    x,
                    (hex_token(j as u8), id),
                );
            assert(x == 12 + j) by {
                if x != 12 + j {
                    if x < 12 + j {
                        assert(p[x].0 != p[12 + j as int].0);
                    } else {
                        assert(p[12 + j as int].0 != p[x].0);
                    }
                }
            }
            assert(vocab.pairs() =~= llama_pairs_upto(j + 1));
        }
        j += 1;
    }
    assert(llama_pairs_upto(32) =~= llama_pairs());
    let vocab_size = vocab.len();
    let inverse_vocab = build_inverse(&vocab, vocab_size);
    proof {
        lemma_llama_inverse(views(inverse_vocab@));
    }
    let byte_vocab = build_byte_vocab();
    let mut config = TokenizerConfig::default();
    config.vocab_size = vocab_size;
    config.bos_token_id = Some(1);
    config.eos_token_id = Some(2);
    config.unk_token_id = Some(0);
    Ok(BPETokenizer { vocab, inverse_vocab, merges: Vec::new(), config, byte_vocab })
}

proof fn lemma_llama_inverse(inv: Seq<Seq<char>>)
    requires
        distinct_keys_of(llama_pairs()),
        is_inverse_of(inv, crate::strmap::map_of(llama_pairs()), 268),
    ensures
        inv == llama_inverse(),
{
    let pairs = llama_pairs();
    let m = crate::strmap::map_of(pairs);
    assert forall|i: int| 0 <= i < 268 implies inv[i] == llama_inverse()[i] by {
        if i < 12 || i >= 44 {
            crate::strmap::lemma_map_of_value(pairs, i);
            assert(pairs[i].1 == i as usize);
            assert(m.contains_key(pairs[i].0) && m[pairs[i].0] == i);
            assert(m.contains_key(inv[i]) && m[inv[i]] == i);
            crate::strmap::lemma_map_of_contains(pairs, inv[i]);
            let e = choose|e: int| 0 <= e < pairs.len() && pairs[e].0 == inv[i];
            crate::strmap::lemma_map_of_value(pairs, e);
        } else {
            assert forall|k: Seq<char>| m.contains_key(k) implies m[k] != i by {
                crate::strmap::lemma_map_of_contains(pairs, k);
                let e = choose|e: int| 0 <= e < pairs.len() && pairs[e].0 == k;
                crate::strmap::lemma_map_of_value(pairs, e);
            }
        }
    }
    assert(inv =~= llama_inverse());
}


/// Name of a tokenizer type, as `{:?}` prints it.
pub open spec fn tokenizer_type_name(t: TokenizerType) -> Seq<char> {
    match t {
        TokenizerType::BPE => "BPE"@,
        TokenizerType::WordPiece => "WordPiece"@,
        TokenizerType::Unigram => "Unigram"@,
        TokenizerType::Char => "Char"@,
    }
}

/// Creates a tokenizer of the given type: BPE gives the GPT-2 style
/// tokenizer, every other type is refused.
pub fn create_tokenizer(tokenizer_type: TokenizerType) -> (r: Result<Box<dyn Tokenizer>, LLMError>)
    ensures
        tokenizer_type == TokenizerType::BPE <==> r is Ok,
        r matches Ok(t) ==> t.inv() && t.spec_config() == sized_config(
            350,
            Some(1),
            None,
            Some(0),
            Some(0),
        ),
        r matches Ok(t) ==> forall|text: Seq<char>, add: bool|
            #[trigger] t.encode_failure(text, add) is None && t.encoding(text, add) == gpt2_encoding(
                text,
                add,
            ),
        r matches Ok(t) ==> forall|ids: Seq<usize>|
            #[trigger] t.decode_failure(ids) is None && t.decoding(ids) == decode_text(gpt2_tokens(), ids)
                && t.can_decode(ids) == decodable(gpt2_tokens(), ids),
        r matches Err(e) ==> e matches LLMError::TokenizerError(m) && m@ == "Unsupported tokenizer type: "@
            + tokenizer_type_name(tokenizer_type),
{
    match tokenizer_type {
        TokenizerType::BPE => {
            let t = create_gpt2_tokenizer()?;
            proof {
                t.lemma_vocab_view();
                assert(t.merges_view() =~= Seq::<(Seq<char>, Seq<char>)>::empty());
                assert forall|text: Seq<char>, add: bool|
                    t.encoding(text, add) == gpt2_encoding(text, add) by {
                    assert(opt_special(add, t.config_view().bos_token_id) =~= Seq::<usize>::empty());
                    assert(t.encoding(text, add) =~= gpt2_encoding(text, add));
                }
            }
            Ok(Box::new(t))
        },
        _ => {
            let name = match tokenizer_type {
                TokenizerType::BPE => "BPE",
                TokenizerType::WordPiece => "WordPiece",
                TokenizerType::Unigram => "Unigram",
                TokenizerType::Char => "Char",
            };
            Err(LLMError::TokenizerError(concat_strings("Unsupported tokenizer type: ", name)))
        },
    }
}

/// Ids of a text under the GPT-2 style tokenizer: no merge rules, the
/// unknown id 0, EOS 0 and no BOS.
pub open spec fn gpt2_encoding(text: Seq<char>, add: bool) -> Seq<usize> {
    words_ids(crate::strmap::map_of(numbered(gpt2_tokens(), 0)), seq![], Some(0usize), split_ws(text))
        + opt_special(add, Some(0usize))
}

/// Distinct keys of a pair list.
pub open spec fn distinct_keys_of(p: Seq<(Seq<char>, usize)>) -> bool {
    crate::strmap::distinct_keys(p)
}


// ----------------------------------------------------------------------
// Loading vocabularies from text
// ----------------------------------------------------------------------

/// Vocabulary of a vocab file: line `i` has id `i` (a repeated line keeps
/// its last id).
pub open spec fn vocab_of_lines(ls: Seq<Seq<char>>) -> Map<Seq<char>, usize> {
    crate::strmap::map_of(numbered(ls, 0))
}

/// A line split at its first space: the text before and the text after.
pub open spec fn split_first_space(l: Seq<char>) -> (Seq<char>, Seq<char>) {
    let p = first_index_of(l, ' ')->0;
    (l.take(p), l.skip(p + 1))
}

/// Merge rules of a merges file: every line holding a space, split at its
/// first space; other lines are skipped.
pub open spec fn merge_rules_of(ls: Seq<Seq<char>>) -> Seq<(Seq<char>, Seq<char>)>
    decreases ls.len(),
{
    if ls.len() == 0 {
        seq![]
    } else {
        let prev = merge_rules_of(ls.drop_last());
        if first_index_of(ls.last(), ' ') is Some {
            prev.push(split_first_space(ls.last()))
        } else {
            prev
        }
    }
}

/// Splits a line at its first space, if it has one.
fn split_at_first_space(l: &[char]) -> (r: Option<(String, String)>)
    ensures
        r is Some <==> first_index_of(l@, ' ') is Some,
        r matches Some(p) ==> (p.0@, p.1@) == split_first_space(l@),
{
    let n = l.len();
    match find_char(l, ' ') {
        Some(p) => {
            let a = string_of_range(l, 0, p);
            let b = string_of_range(l, p + 1, n);
            assert(l@.take(p as int) =~= l@.subrange(0, p as int));
            assert(l@.skip(p + 1) =~= l@.subrange(p + 1, l@.len() as int));
            Some((a, b))
        },
        None => None,
    }
}

/// Reads a vocabulary: one token per line, numbered from 0.
fn load_vocab(content: &str) -> (r: StrMap)
    ensures
        r.wf(),
        r@ == vocab_of_lines(lines_of(content@)),
{
    let chars = to_chars(content);
    let ls = lines(chars.as_slice());
    let ghost lv = lines_of(content@);
    let mut vocab = StrMap::new();
    let mut i: usize = 0;
    while i < ls.len()
        invariant
            vocab.wf(),
            i <= ls@.len(),
            ls.deep_view() == lv,
            vocab@ == crate::strmap::map_of(numbered(lv, 0).take(i as int)),
        decreases ls.len() - i,
    {
        let tok = string_of(ls[i].as_slice());
        assert(tok@ == lv[i as int]) by {
            assert(ls.deep_view()[i as int] =~= ls@[i as int]@);
        }
        vocab.insert(tok, i);
        assert(numbered(lv, 0).take(i + 1).drop_last() =~= numbered(lv, 0).take(i as int));
        i += 1;
    }
    assert(numbered(lv, 0).take(lv.len() as int) =~= numbered(lv, 0));
    vocab
}

/// Reads merge rules: lines holding a space, split at the first space.
fn load_merges(content: &str) -> (r: Vec<(String, String)>)
    ensures
        merge_views(r@) == merge_rules_of(lines_of(content@)),
{
    let chars = to_chars(content);
    let ls = lines(chars.as_slice());
    let ghost lv = lines_of(content@);
    let mut merges: Vec<(String, String)> = Vec::new();
    let mut i: usize = 0;
    while i < ls.len()
        invariant
            i <= ls@.len(),
            ls.deep_view() == lv,
            merge_views(merges@) == merge_rules_of(lv.take(i as int)),
        decreases ls.len() - i,
    {
        assert(ls.deep_view()[i as int] =~= ls@[i as int]@);
        assert(lv.take(i + 1).drop_last() =~= lv.take(i as int));
        let ghost before = merge_views(merges@);
        match split_at_first_space(ls[i].as_slice()) {
            Some(p) => {
                merges.push(p);
                assert(merge_views(merges@) =~= before.push(split_first_space(lv[i as int])));
            },
            None => {},
        }
        i += 1;
    }
    assert(lv.take(lv.len() as int) =~= lv);
    merges
}

impl BPETokenizer {
    /// Builds a tokenizer from the text of a vocab file (one token per line,
    /// ids in line order) and of a merges file (`first second` per line).
    pub fn from_vocab_and_merges_text(vocab_content: &str, merges_content: &str) -> (r: Self)
        ensures
            r.wf(),
            r.vocab_view() == vocab_of_lines(lines_of(vocab_content@)),
            r.merges_view() == merge_rules_of(lines_of(merges_content@)),
            is_inverse_of(r.inverse_view(), r.vocab_view(), r.vocab_view().len()),
            r.config_view() == sized_config(r.vocab_view().len() as usize, None, Some(1), Some(2), Some(0)),
    {
        let vocab = load_vocab(vocab_content);
        let merges = load_merges(merges_content);
        let vocab_size = vocab.len();
        let inverse_vocab = build_inverse(&vocab, vocab_size);
        let byte_vocab = build_byte_vocab();
        let mut config = TokenizerConfig::default();
        config.vocab_size = vocab_size;
        BPETokenizer { vocab, inverse_vocab, merges, config, byte_vocab }
    }
}

// ----------------------------------------------------------------------
// Loading from the fields of a tokenizer.json document
// ----------------------------------------------------------------------

/// One entry of `model.vocab`: the token and its id when the id is an
/// unsigned integer.
#[derive(Debug, Clone)]
pub struct JsonVocabEntry {
    pub token: String,
    pub id: Option<u64>,
}

/// One entry of `added_tokens`, each field present when it has the
/// expected JSON type.
#[derive(Debug, Clone)]
pub struct JsonAddedToken {
    pub id: Option<u64>,
    pub content: Option<String>,
    pub special: Option<bool>,
}

/// What the tokenizer reads from a tokenizer.json document.
#[derive(Debug, Clone)]
pub struct TokenizerJson {
    /// Whether the document has a `model` key.
    pub has_model: bool,
    /// `model.vocab` when it is an object, its entries in the order the
    /// object is walked.
    pub vocab: Option<Vec<JsonVocabEntry>>,
    /// `model.merges` when it is an array; entries that are not strings are `None`.
    pub merges: Option<Vec<Option<String>>>,
    /// `added_tokens` when it is an array.
    pub added_tokens: Option<Vec<JsonAddedToken>>,
}

/// Vocabulary entries with an integer id, as (token, id) pairs.
pub open spec fn json_vocab_pairs(es: Seq<JsonVocabEntry>) -> Seq<(Seq<char>, usize)>
    decreases es.len(),
{
    if es.len() == 0 {
        seq![]
    } else {
        let prev = json_vocab_pairs(es.drop_last());
        match es.last().id {
            Some(id) => prev.push((es.last().token@, id as usize)),
            None => prev,
        }
    }
}

/// Merge rules from `model.merges`: string entries holding a space.
pub open spec fn json_merge_rules(ms: Seq<Option<String>>) -> Seq<(Seq<char>, Seq<char>)>
    decreases ms.len(),
{
    if ms.len() == 0 {
        seq![]
    } else {
        let prev = json_merge_rules(ms.drop_last());
        match ms.last() {
            Some(m) => if first_index_of(m@, ' ') is Some {
                prev.push(split_first_space(m@))
            } else {
                prev
            },
            None => prev,
        }
    }
}

/// The configuration after reading the special added tokens in order.
pub open spec fn apply_added_tokens(c: TokenizerConfig, ts: Seq<JsonAddedToken>) -> TokenizerConfig
    decreases ts.len(),
{
    if ts.len() == 0 {
        c
    } else {
        let prev = apply_added_tokens(c, ts.drop_last());
        let t = ts.last();
        match (t.id, t.content, t.special) {
            (Some(id), Some(content), Some(true)) => {
                let id = id as usize;
                if content@ == "<pad>"@ {
                    TokenizerConfig { pad_token_id: Some(id), ..prev }
                } else if content@ == "<s>"@ || content@ == "<bos>"@ {
                    TokenizerConfig { bos_token_id: Some(id), ..prev }
                } else if content@ == "</s>"@ || content@ == "<eos>"@ {
                    TokenizerConfig { eos_token_id: Some(id), ..prev }
                } else if content@ == "<unk>"@ {
                    TokenizerConfig { unk_token_id: Some(id), ..prev }
                } else {
                    prev
                }
            },
            _ => prev,
        }
    }
}

/// What building from tokenizer.json fields gives: an error without a
/// `model` or without `model.vocab`, and otherwise a tokenizer of the
/// vocabulary's entries with integer ids, the merge rules of the string
/// merges, and the special ids of the special added tokens.
pub open spec fn json_built(j: TokenizerJson, r: Result<BPETokenizer, LLMError>) -> bool {
    &&& !j.has_model ==> (r matches Err(LLMError::TokenizerError(m)) && m@
        == "Missing model in tokenizer.json"@)
    &&& j.has_model && j.vocab is None ==> (r matches Err(LLMError::TokenizerError(m)) && m@
        == "Missing vocab"@)
    &&& (j.has_model && j.vocab is Some <==> r is Ok)
    &&& r matches Ok(t) ==> {
        &&& t.wf()
        &&& t.vocab_view() == crate::strmap::map_of(json_vocab_pairs(j.vocab->0@))
        &&& t.merges_view() == (match j.merges {
            Some(ms) => json_merge_rules(ms@),
            None => seq![],
        })
        &&& is_inverse_of(t.inverse_view(), t.vocab_view(), t.vocab_view().len())
        &&& t.config_view() == (match j.added_tokens {
            Some(ts) => apply_added_tokens(
                sized_config(t.vocab_view().len() as usize, None, Some(1), Some(2), Some(0)),
                ts@,
            ),
            None => sized_config(t.vocab_view().len() as usize, None, Some(1), Some(2), Some(0)),
        })
    }
}

/// The fields of a tokenizer.json document as plain values: whether it has
/// `model`; the (token, id) entries of `model.vocab`; the entries of
/// `model.merges`; the (id, content, special) entries of `added_tokens`.
pub type JsonFields = (
    bool,
    Option<Seq<(Seq<char>, Option<u64>)>>,
    Option<Seq<Option<Seq<char>>>>,
    Option<Seq<(Option<u64>, Option<Seq<char>>, Option<bool>)>>,
);

/// `model.vocab` entries as plain values.
pub open spec fn vocab_fields(v: Option<Vec<JsonVocabEntry>>) -> Option<Seq<(Seq<char>, Option<u64>)>> {
    match v {
        Some(v) => Some(v@.map_values(|e: JsonVocabEntry| (e.token@, e.id))),
        None => None,
    }
}

/// `model.merges` entries as plain values.
pub open spec fn merge_fields(m: Option<Vec<Option<String>>>) -> Option<Seq<Option<Seq<char>>>> {
    match m {
        Some(m) => Some(
            m@.map_values(
                |o: Option<String>|
                    match o {
                        Some(x) => Some(x@),
                        None => None,
                    },
            ),
        ),
        None => None,
    }
}

/// `added_tokens` entries as plain values.
pub open spec fn added_fields(a: Option<Vec<JsonAddedToken>>) -> Option<
    Seq<(Option<u64>, Option<Seq<char>>, Option<bool>)>,
> {
    match a {
        Some(a) => Some(
            a@.map_values(
                |t: JsonAddedToken|
                    (
                        t.id,
                        match t.content {
                            Some(c) => Some(c@),
                            None => None,
                        },
                        t.special,
                    ),
            ),
        ),
        None => None,
    }
}

/// The fields that `j` holds.
pub open spec fn json_fields_of(j: TokenizerJson) -> JsonFields {
    (j.has_model, vocab_fields(j.vocab), merge_fields(j.merges), added_fields(j.added_tokens))
}

/// What `serde_json::from_str` makes of a tokenizer.json text, read as
/// `JsonFields`: `model.vocab` in the order serde_json's object walks its
/// keys, each id when `as_u64` gives one; `model.merges` entries by
/// `as_str`; `added_tokens` entries by `as_u64`, `as_str` and `as_bool`.
/// When the text is not JSON, the parser's error message.
pub uninterp spec fn tokenizer_json_fields(text: Seq<char>) -> Result<JsonFields, Seq<char>>;

/// `serde_json::from_str` into a `serde_json::Value`, then its `model`
/// entry, `model.vocab` and `model.merges` (`serde_json::Value::get`,
/// `as_object`, `as_array`, `as_u64`, `as_str`).  The result is claimed to
/// be what the name `tokenizer_json_fields` gives for the text; nothing
/// more is stated.
#[verifier::external_body]
fn parse_tokenizer_json_model(content: &str) -> (r: Result<
    (bool, Option<Vec<JsonVocabEntry>>, Option<Vec<Option<String>>>),
    String,
>)
    ensures
        match tokenizer_json_fields(content@) {
            Ok(f) => r matches Ok((h, v, m)) && h == f.0 && vocab_fields(v) == f.1 && merge_fields(m)
                == f.2,
            Err(msg) => r matches Err(e) && e@ == msg,
        },
{
    let v: serde_json::Value = serde_json::from_str(content).map_err(|e| e.to_string())?;
    let m = v.get("model");
    let vocab = m.and_then(|m| m.get("vocab")?.as_object()).map(|o| o.iter().map(|(k, i)| JsonVocabEntry { token: k.clone(), id: i.as_u64() }).collect());
    let merges = m.and_then(|m| m.get("merges")?.as_array()).map(|a| a.iter().map(|x| x.as_str().map(|s| s.to_string())).collect());
    Ok((m.is_some(), vocab, merges))
}

/// `serde_json::from_str` into a `serde_json::Value`, then its
/// `added_tokens` entry (`get`, `as_array`, `as_u64`, `as_str`,
/// `as_bool`); `None` when the text is not JSON.  The result is claimed to
/// be what the name `tokenizer_json_fields` gives for the text; nothing
/// more is stated.
#[verifier::external_body]
fn parse_tokenizer_json_added(content: &str) -> (r: Option<Vec<JsonAddedToken>>)
    ensures
        match tokenizer_json_fields(content@) {
            Ok(f) => added_fields(r) == f.3,
            Err(_) => r is None,
        },
{
    let v: serde_json::Value = serde_json::from_str(content).ok()?;
    v.get("added_tokens")?.as_array().map(|a| a.iter().map(|t| JsonAddedToken { id: t.get("id").and_then(|i| i.as_u64()), content: t.get("content").and_then(|c| c.as_str()).map(|c| c.to_string()), special: t.get("special").and_then(|s| s.as_bool()) }).collect())
}

impl BPETokenizer {
    /// Builds a tokenizer from the fields of a HuggingFace tokenizer.json
    /// document.  Fails when there is no `model` or no `model.vocab` object.
    #[verifier::rlimit(40)]
    pub fn from_tokenizer_json_data(json: &TokenizerJson) -> (r: Result<Self, LLMError>)
        ensures
            json_built(*json, r),
    {
        if !json.has_model {
            return Err(LLMError::TokenizerError("Missing model in tokenizer.json".to_owned()));
        }
        let entries = match &json.vocab {
            Some(v) => v,
            None => {
                return Err(LLMError::TokenizerError("Missing vocab".to_owned()));
            },
        };
        let mut vocab = StrMap::new();
        let mut i: usize = 0;
        while i < entries.len()
            invariant
                vocab.wf(),
                i <= entries@.len(),
                vocab@ == crate::strmap::map_of(json_vocab_pairs(entries@.take(i as int))),
            decreases entries.len() - i,
        {
            assert(entries@.take(i + 1).drop_last() =~= entries@.take(i as int));
            assert(entries@.take(i + 1).last() == entries@[i as int]);
            match entries[i].id {
                Some(id) => {
                    let ghost prev = json_vocab_pairs(entries@.take(i as int));
                    vocab.insert(entries[i].token.clone(), id as usize);
                    assert(prev.push((entries@[i as int].token@, id as usize)).drop_last() =~= prev);
                },
                None => {},
            }
            i += 1;
        }
        assert(entries@.take(entries@.len() as int) =~= entries@);
        let mut merges: Vec<(String, String)> = Vec::new();
        match &json.merges {
            Some(ms) => {
                let mut k: usize = 0;
                while k < ms.len()
                    invariant
                        k <= ms@.len(),
                        merge_views(merges@) == json_merge_rules(ms@.take(k as int)),
                    decreases ms.len() - k,
                {
                    assert(ms@.take(k + 1).drop_last() =~= ms@.take(k as int));
                    let ghost before = merge_views(merges@);
                    match &ms[k] {
                        Some(m) => {
                            let mc = to_chars(m.as_str());
                            match split_at_first_space(mc.as_slice()) {
                                Some(p) => {
                                    merges.push(p);
                                    assert(merge_views(merges@) =~= before.push(
                                        split_first_space(m@),
                                    ));
                                },
                                None => {},
                            }
                        },
                        None => {},
                    }
                    k += 1;
                }
                assert(ms@.take(ms@.len() as int) =~= ms@);
            },
            None => {
                assert(merge_views(merges@) =~= Seq::<(Seq<char>, Seq<char>)>::empty());
            },
        }
        let vocab_size = vocab.len();
        let inverse_vocab = build_inverse(&vocab, vocab_size);
        let byte_vocab = build_byte_vocab();
        let mut config = TokenizerConfig::default();
        config.vocab_size = vocab_size;
        match &json.added_tokens {
            Some(ts) => {
                let ghost c0 = config;
                let mut k: usize = 0;
                while k < ts.len()
                    invariant
                        k <= ts@.len(),
                        config == apply_added_tokens(c0, ts@.take(k as int)),
                    decreases ts.len() - k,
                {
                    assert(ts@.take(k + 1).drop_last() =~= ts@.take(k as int));
                    let t = &ts[k];
                    match (t.id, &t.content, t.special) {
                        (Some(id), Some(content), Some(true)) => {
                            let id = id as usize;
                            let c = content.as_str();
                            if str_eq(c, "<pad>") {
                                config.pad_token_id = Some(id);
                            } else if str_eq(c, "<s>") || str_eq(c, "<bos>") {
                                config.bos_token_id = Some(id);
                            } else if str_eq(c, "</s>") || str_eq(c, "<eos>") {
                                config.eos_token_id = Some(id);
                            } else if str_eq(c, "<unk>") {
                                config.unk_token_id = Some(id);
                            }
                        },
                        _ => {},
                    }
                    k += 1;
                }
                assert(ts@.take(ts@.len() as int) =~= ts@);
            },
            None => {},
        }
        Ok(BPETokenizer { vocab, inverse_vocab, merges, config, byte_vocab })
    }
}

impl BPETokenizer {
    /// Builds a tokenizer from the text of a tokenizer.json document: the
    /// parser's message as a tokenizer error when the text is not JSON,
    /// otherwise as `from_tokenizer_json_data` on the document's fields.
    pub fn from_tokenizer_json_text(content: &str) -> (r: Result<Self, LLMError>)
        ensures
            match tokenizer_json_fields(content@) {
                Err(m) => r matches Err(LLMError::TokenizerError(e)) && e@ == m,
                Ok(f) => exists|j: TokenizerJson| json_fields_of(j) == f && #[trigger] json_built(j, r),
            },
    {
        match parse_tokenizer_json_model(content) {
            Ok((has_model, vocab, merges)) => {
                let added_tokens = parse_tokenizer_json_added(content);
                let json = TokenizerJson { has_model, vocab, merges, added_tokens };
                proof {
                    assert(json_fields_of(json) == tokenizer_json_fields(content@)->Ok_0);
                }
                BPETokenizer::from_tokenizer_json_data(&json)
            },
            Err(e) => Err(LLMError::TokenizerError(e)),
        }
    }
}

proof fn lemma_pass_unchanged(w: Seq<Seq<char>>, merges: Seq<(Seq<char>, Seq<char>)>)
    ensures
        !merge_pass(w, merges).1 ==> merge_pass(w, merges).0 == w,
    decreases merges.len(),
{
    if merges.len() > 0 {
        lemma_pass_unchanged(w, merges.drop_last());
        let (w1, c1) = merge_pass(w, merges.drop_last());
        lemma_pair_scan_unchanged(w1, merges.last().0, merges.last().1, merges.last().0 + merges.last().1, 0);
    }
}

// ----------------------------------------------------------------------
// Decoding what was encoded
// ----------------------------------------------------------------------

/// The words joined without separator.
pub open spec fn concat_words(ws: Seq<Seq<char>>) -> Seq<char>
    decreases ws.len(),
{
    if ws.len() == 0 {
        seq![]
    } else {
        concat_words(ws.drop_last()) + ws.last()
    }
}

/// A printable ASCII character that the GPT-2 vocabulary holds as its own
/// token: `'!'` ..= `'z'`.
pub open spec fn gpt2_printable(c: char) -> bool {
    '!' <= c && c <= 'z'
}

proof fn lemma_ws_scan_chars(s: Seq<char>)
    requires
        forall|i: int| 0 <= i < s.len() && !crate::text::is_ws(#[trigger] s[i]) ==> gpt2_printable(s[i]),
    ensures
        forall|k: int, i: int|
            0 <= k < ws_scan_of(s).0.len() && 0 <= i < ws_scan_of(s).0[k].len() ==> gpt2_printable(
                #[trigger] ws_scan_of(s).0[k][i],
            ),
        forall|i: int| 0 <= i < ws_scan_of(s).1.len() ==> gpt2_printable(#[trigger] ws_scan_of(s).1[i]),
    decreases s.len(),
{
    if s.len() > 0 {
        let p = s.drop_last();
        assert forall|i: int| 0 <= i < p.len() && !crate::text::is_ws(#[trigger] p[i]) implies gpt2_printable(p[i]) by {
            assert(p[i] == s[i]);
        }
        lemma_ws_scan_chars(p);
        let (done, cur) = ws_scan_of(p);
        let c = s.last();
        if !crate::text::is_ws(c) {
            assert(gpt2_printable(s[s.len() - 1]));
            assert forall|i: int| 0 <= i < cur.push(c).len() implies gpt2_printable(#[trigger] cur.push(c)[i]) by {
                if i < cur.len() {
                    assert(cur.push(c)[i] == cur[i]);
                }
            }
        } else if cur.len() > 0 {
            assert forall|k: int, i: int|
                0 <= k < done.push(cur).len() && 0 <= i < done.push(cur)[k].len() implies gpt2_printable(
                    #[trigger] done.push(cur)[k][i],
                ) by {
                if k < done.len() {
                    assert(done.push(cur)[k] == done[k]);
                }
            }
        }
    }
}

/// `split_ws`'s scan.
pub open spec fn ws_scan_of(s: Seq<char>) -> (Seq<Seq<char>>, Seq<char>) {
    crate::text::ws_scan(s)
}

proof fn lemma_split_ws_printable(s: Seq<char>)
    requires
        forall|i: int| 0 <= i < s.len() && !crate::text::is_ws(#[trigger] s[i]) ==> gpt2_printable(s[i]),
    ensures
        forall|k: int, i: int|
            0 <= k < split_ws(s).len() && 0 <= i < split_ws(s)[k].len() ==> gpt2_printable(
                #[trigger] split_ws(s)[k][i],
            ),
{
    lemma_ws_scan_chars(s);
    let (done, cur) = ws_scan_of(s);
    if cur.len() > 0 {
        assert forall|k: int, i: int|
            0 <= k < done.push(cur).len() && 0 <= i < done.push(cur)[k].len() implies gpt2_printable(
                #[trigger] done.push(cur)[k][i],
            ) by {
            if k < done.len() {
                assert(done.push(cur)[k] == done[k]);
            }
        }
    }
}

proof fn lemma_decode_text_concat(inv: Seq<Seq<char>>, a: Seq<usize>, b: Seq<usize>)
    ensures
        decode_text(inv, a + b) == decode_text(inv, a) + decode_text(inv, b),
    decreases b.len(),
{
    if b.len() == 0 {
        assert(a + b =~= a);
    } else {
        assert((a + b).drop_last() =~= a + b.drop_last());
        lemma_decode_text_concat(inv, a, b.drop_last());
    }
}

/// The GPT-2 id of a printable character.
pub open spec fn gpt2_char_id(c: char) -> usize {
    (260 + (c as u32) - 33) as usize
}

proof fn lemma_gpt2_char_entry(c: char)
    requires
        gpt2_printable(c),
    ensures
        gpt2_tokens()[gpt2_char_id(c) as int] == seq![c],
        numbered(gpt2_tokens(), 0)[gpt2_char_id(c) as int] == (seq![c], gpt2_char_id(c)),
        gpt2_char_id(c) < gpt2_tokens().len(),
{
    let k = (c as u32) - 33;
    assert(gpt2_tokens()[260 + k] == printable_tokens()[k]);
    vstd::utf8::char_u32_cast(c, c as u32);
    assert(((33 + k) as u32) as char == c);
}

/// Ids and decoded text of one printable word.
proof fn lemma_printable_word(t: BPETokenizer, w: Seq<char>)
    requires
        t.wf(),
        t.vocab_pairs() == numbered(gpt2_tokens(), 0),
        t.inverse_view() == gpt2_tokens(),
        t.merges_view().len() == 0,
        forall|i: int| 0 <= i < w.len() ==> gpt2_printable(#[trigger] w[i]),
    ensures
        decode_text(
            t.inverse_view(),
            token_ids(t.vocab_view(), t.config_view().unk_token_id, bpe_word(w, t.merges_view())),
        ) == w,
        forall|k: int|
            0 <= k < token_ids(t.vocab_view(), t.config_view().unk_token_id, bpe_word(w, t.merges_view())).len()
                ==> #[trigger] token_ids(
                t.vocab_view(),
                t.config_view().unk_token_id,
                bpe_word(w, t.merges_view()),
            )[k] >= 260,
    decreases w.len(),
{
    broadcast use vstd::utf8::is_ascii_chars_encode_utf8;
    assert(t.merges_view() =~= Seq::<(Seq<char>, Seq<char>)>::empty());
    assert forall|i: int| 0 <= i < w.len() implies '\0' <= #[trigger] w[i] <= '\u{7f}' by {
        assert(gpt2_printable(w[i]));
    }
    assert(vstd::utf8::is_ascii_chars(w));
    let bytes = encode_utf8(w);
    let toks = byte_tokens(bytes);
    assert(bpe_word(w, t.merges_view()) == toks);
    let ids = token_ids(t.vocab_view(), t.config_view().unk_token_id, toks);
    lemma_ascii_word_decodes(t, w);
}

/// With no merge rules, a printable word becomes one token per character,
/// each with its GPT-2 id, and those ids decode back to the word.
proof fn lemma_ascii_word_decodes(t: BPETokenizer, w: Seq<char>)
    requires
        t.wf(),
        t.vocab_pairs() == numbered(gpt2_tokens(), 0),
        t.inverse_view() == gpt2_tokens(),
        forall|i: int| 0 <= i < w.len() ==> gpt2_printable(#[trigger] w[i]),
    ensures
        decode_text(
            t.inverse_view(),
            token_ids(t.vocab_view(), t.config_view().unk_token_id, byte_tokens(encode_utf8(w))),
        ) == w,
        forall|k: int|
            0 <= k < token_ids(t.vocab_view(), t.config_view().unk_token_id, byte_tokens(encode_utf8(w))).len()
                ==> #[trigger] token_ids(
                t.vocab_view(),
                t.config_view().unk_token_id,
                byte_tokens(encode_utf8(w)),
            )[k] >= 260,
    decreases w.len(),
{
    broadcast use vstd::utf8::is_ascii_chars_encode_utf8;
    assert forall|i: int| 0 <= i < w.len() implies '\0' <= #[trigger] w[i] <= '\u{7f}' by {
        assert(gpt2_printable(w[i]));
    }
    assert(vstd::utf8::is_ascii_chars(w));
    if w.len() > 0 {
        let p = w.drop_last();
        assert forall|i: int| 0 <= i < p.len() implies gpt2_printable(#[trigger] p[i]) by {
            assert(p[i] == w[i]);
        }
        lemma_ascii_word_decodes(t, p);
        assert(vstd::utf8::is_ascii_chars(p));
        let bw = encode_utf8(w);
        let bp = encode_utf8(p);
        let n = w.len() - 1;
        let c = w[n];
        let toks = byte_tokens(bw);
        assert(toks.drop_last() =~= byte_tokens(bp)) by {
            assert forall|i: int| 0 <= i < bp.len() implies toks.drop_last()[i] == byte_tokens(bp)[i] by {
                assert(bw[i] == w[i] as u8);
                assert(bp[i] == p[i] as u8);
            }
        }
        assert(bw[n] == c as u8);
        assert((c as u8) < 128);
        assert(((c as u8) as char) == c) by {
            vstd::utf8::char_u32_cast(c, c as u32);
        }
        assert(toks.last() == seq![c]);
        lemma_gpt2_char_entry(c);
        let pairs = numbered(gpt2_tokens(), 0);
        crate::strmap::lemma_map_of_value(pairs, gpt2_char_id(c) as int);
        t.lemma_vocab_view();
        let unk = t.config_view().unk_token_id;
        let ids = token_ids(t.vocab_view(), unk, toks);
        assert(ids == token_ids(t.vocab_view(), unk, byte_tokens(bp)).push(gpt2_char_id(c)));
        assert(ids.drop_last() =~= token_ids(t.vocab_view(), unk, byte_tokens(bp)));
        assert(ids.last() == gpt2_char_id(c));
        assert(t.inverse_view()[gpt2_char_id(c) as int] == seq![c]);
        assert(decode_text(t.inverse_view(), ids) == decode_text(
            t.inverse_view(),
            token_ids(t.vocab_view(), unk, byte_tokens(bp)),
        ) + token_text(seq![c]));
        assert(token_text(seq![c]) == seq![c]);
        assert(p + seq![c] =~= w);
        assert(gpt2_printable(c));
        assert(gpt2_char_id(c) >= 260);
        let prev = token_ids(t.vocab_view(), unk, byte_tokens(bp));
        assert forall|k: int| 0 <= k < ids.len() implies #[trigger] ids[k] >= 260 by {
            if k < ids.len() - 1 {
                assert(ids[k] == prev[k]);
            }
        }
    }
}

/// The GPT-2 tokenizer decodes the encoding of a text made of whitespace
/// and the characters `'!'` ..= `'z'` to the text's words joined without
/// separator.
pub proof fn lemma_gpt2_round_trip(t: BPETokenizer, text: Seq<char>)
    requires
        t.wf(),
        t.vocab_pairs() == numbered(gpt2_tokens(), 0),
        t.inverse_view() == gpt2_tokens(),
        t.merges_view().len() == 0,
        forall|i: int| 0 <= i < text.len() && !crate::text::is_ws(#[trigger] text[i]) ==> gpt2_printable(text[i]),
    ensures
        t.decoding(t.encoding(text, false)) == concat_words(split_ws(text)),
{
    lemma_split_ws_printable(text);
    let ws = split_ws(text);
    lemma_words_decode(t, ws);
    assert(t.encoding(text, false) =~= words_ids(t.vocab_view(), t.merges_view(), t.config_view().unk_token_id, ws));
}

proof fn lemma_words_decode(t: BPETokenizer, ws: Seq<Seq<char>>)
    requires
        t.wf(),
        t.vocab_pairs() == numbered(gpt2_tokens(), 0),
        t.inverse_view() == gpt2_tokens(),
        t.merges_view().len() == 0,
        forall|k: int, i: int| 0 <= k < ws.len() && 0 <= i < ws[k].len() ==> gpt2_printable(#[trigger] ws[k][i]),
    ensures
        decode_text(t.inverse_view(), words_ids(t.vocab_view(), t.merges_view(), t.config_view().unk_token_id, ws))
            == concat_words(ws),
        forall|k: int|
            0 <= k < words_ids(t.vocab_view(), t.merges_view(), t.config_view().unk_token_id, ws).len()
                ==> #[trigger] words_ids(t.vocab_view(), t.merges_view(), t.config_view().unk_token_id, ws)[k]
                >= 260,
    decreases ws.len(),
{
    if ws.len() > 0 {
        let p = ws.drop_last();
        assert forall|k: int, i: int| 0 <= k < p.len() && 0 <= i < p[k].len() implies gpt2_printable(#[trigger] p[k][i]) by {
            assert(p[k] == ws[k]);
        }
        lemma_words_decode(t, p);
        let w = ws.last();
        assert forall|i: int| 0 <= i < w.len() implies gpt2_printable(#[trigger] w[i]) by {
            assert(ws[ws.len() - 1][i] == w[i]);
        }
        lemma_printable_word(t, w);
        let unk = t.config_view().unk_token_id;
        lemma_decode_text_concat(
            t.inverse_view(),
            words_ids(t.vocab_view(), t.merges_view(), unk, p),
            token_ids(t.vocab_view(), unk, bpe_word(w, t.merges_view())),
        );
        let a = words_ids(t.vocab_view(), t.merges_view(), unk, p);
        let b = token_ids(t.vocab_view(), unk, bpe_word(w, t.merges_view()));
        let all = words_ids(t.vocab_view(), t.merges_view(), unk, ws);
        assert(all == a + b);
        assert forall|k: int| 0 <= k < all.len() implies #[trigger] all[k] >= 260 by {
            if k < a.len() {
                assert(all[k] == a[k]);
            } else {
                assert(all[k] == b[k - a.len()]);
            }
        }
    }
}

/// The sequences joined in order.
pub open spec fn concat_ids(s: Seq<Seq<usize>>) -> Seq<usize>
    decreases s.len(),
{
    if s.len() == 0 {
        seq![]
    } else {
        concat_ids(s.drop_last()) + s.last()
    }
}

/// A word of a split holds no whitespace.
pub open spec fn no_ws(w: Seq<char>) -> bool {
    forall|i: int| 0 <= i < w.len() ==> !crate::text::is_ws(#[trigger] w[i])
}

/// The words that the scan completes are non-empty, and they and the word
/// being read hold no whitespace.
proof fn lemma_ws_scan_words(s: Seq<char>)
    ensures
        forall|k: int|
            0 <= k < crate::text::ws_scan(s).0.len() ==> (#[trigger] crate::text::ws_scan(s).0[k]).len() > 0
                && no_ws(crate::text::ws_scan(s).0[k]),
        no_ws(crate::text::ws_scan(s).1),
    decreases s.len(),
{
    if s.len() > 0 {
        let p = s.drop_last();
        lemma_ws_scan_words(p);
        let (done, cur) = crate::text::ws_scan(p);
        let c = s.last();
        if !crate::text::is_ws(c) {
            assert forall|i: int| 0 <= i < cur.push(c).len() implies !crate::text::is_ws(
                #[trigger] cur.push(c)[i],
            ) by {
                if i < cur.len() {
                    assert(cur.push(c)[i] == cur[i]);
                }
            }
        } else if cur.len() > 0 {
            assert forall|k: int| 0 <= k < done.push(cur).len() implies (#[trigger] done.push(cur)[k]).len()
                > 0 && no_ws(done.push(cur)[k]) by {
                if k < done.len() {
                    assert(done.push(cur)[k] == done[k]);
                }
            }
        }
    }
}

/// The words of a split are non-empty and hold no whitespace.
proof fn lemma_split_ws_words(s: Seq<char>)
    ensures
        forall|k: int|
            0 <= k < split_ws(s).len() ==> (#[trigger] split_ws(s)[k]).len() > 0 && no_ws(split_ws(s)[k]),
{
    lemma_ws_scan_words(s);
    let (done, cur) = crate::text::ws_scan(s);
    if cur.len() > 0 {
        assert forall|k: int| 0 <= k < done.push(cur).len() implies (#[trigger] done.push(cur)[k]).len() > 0
            && no_ws(done.push(cur)[k]) by {
            if k < done.len() {
                assert(done.push(cur)[k] == done[k]);
            }
        }
    }
}

/// Text without whitespace is read as one word being read.
proof fn lemma_ws_scan_no_ws(w: Seq<char>)
    requires
        no_ws(w),
    ensures
        crate::text::ws_scan(w) == (Seq::<Seq<char>>::empty(), w),
    decreases w.len(),
{
    if w.len() > 0 {
        let p = w.drop_last();
        assert forall|i: int| 0 <= i < p.len() implies !crate::text::is_ws(#[trigger] p[i]) by {
            assert(p[i] == w[i]);
        }
        lemma_ws_scan_no_ws(p);
        assert(!crate::text::is_ws(w[w.len() - 1]));
        assert(p.push(w.last()) =~= w);
    }
}

/// A non-empty text without whitespace is its own only word.
pub proof fn lemma_split_ws_one_word(w: Seq<char>)
    requires
        w.len() > 0,
        no_ws(w),
    ensures
        split_ws(w) == seq![w],
{
    lemma_ws_scan_no_ws(w);
    assert(Seq::<Seq<char>>::empty().push(w) =~= seq![w]);
}

/// The ids of words are the ids of each word, one after another.
proof fn lemma_words_ids_concat(
    vocab: Map<Seq<char>, usize>,
    merges: Seq<(Seq<char>, Seq<char>)>,
    unk: Option<usize>,
    ws: Seq<Seq<char>>,
)
    requires
        forall|k: int| 0 <= k < ws.len() ==> (#[trigger] ws[k]).len() > 0 && no_ws(ws[k]),
    ensures
        words_ids(vocab, merges, unk, ws) == concat_ids(
            ws.map_values(|w: Seq<char>| words_ids(vocab, merges, unk, split_ws(w))),
        ),
    decreases ws.len(),
{
    let f = |w: Seq<char>| words_ids(vocab, merges, unk, split_ws(w));
    if ws.len() == 0 {
        assert(ws.map_values(f) =~= Seq::<Seq<usize>>::empty());
    } else {
        let p = ws.drop_last();
        assert forall|k: int| 0 <= k < p.len() implies (#[trigger] p[k]).len() > 0 && no_ws(p[k]) by {
            assert(p[k] == ws[k]);
        }
        lemma_words_ids_concat(vocab, merges, unk, p);
        let w = ws.last();
        assert(w.len() > 0 && no_ws(w));
        lemma_split_ws_one_word(w);
        assert(seq![w].drop_last() =~= Seq::<Seq<char>>::empty());
        assert(seq![w].last() == w);
        assert(words_ids(vocab, merges, unk, seq![w].drop_last()) == Seq::<usize>::empty());
        assert(words_ids(vocab, merges, unk, seq![w]) =~= token_ids(vocab, unk, bpe_word(w, merges)));
        assert(ws.map_values(f).drop_last() =~= p.map_values(f));
        assert(ws.map_values(f).last() == f(w));
    }
}

/// Encoding a text with special tokens gives the BOS id (when one is
/// configured), then the encodings without special tokens of the text's
/// whitespace-separated words, one after another, then the EOS id (when one
/// is configured).
pub proof fn lemma_encoding_by_words(t: BPETokenizer, text: Seq<char>)
    ensures
        t.encoding(text, true) == opt_special(true, t.spec_config().bos_token_id) + concat_ids(
            split_ws(text).map_values(|w: Seq<char>| t.encoding(w, false)),
        ) + opt_special(true, t.spec_config().eos_token_id),
{
    let ws = split_ws(text);
    let v = t.vocab_view();
    let m = t.merges_view();
    let u = t.config_view().unk_token_id;
    lemma_split_ws_words(text);
    lemma_words_ids_concat(v, m, u, ws);
    let f = |w: Seq<char>| words_ids(v, m, u, split_ws(w));
    let g = |w: Seq<char>| t.encoding(w, false);
    assert forall|k: int| 0 <= k < ws.len() implies ws.map_values(g)[k] == ws.map_values(f)[k] by {
        let w = ws[k];
        assert(opt_special(false, t.config_view().bos_token_id) =~= Seq::<usize>::empty());
        assert(opt_special(false, t.config_view().eos_token_id) =~= Seq::<usize>::empty());
        assert(t.encoding(w, false) =~= words_ids(v, m, u, split_ws(w)));
    }
    assert(ws.map_values(g) =~= ws.map_values(f));
}

/// A sequence keeps every element that the predicate holds of.
proof fn lemma_filter_keeps_all(s: Seq<usize>, pred: spec_fn(usize) -> bool)
    requires
        forall|i: int| 0 <= i < s.len() ==> pred(#[trigger] s[i]),
    ensures
        s.filter(pred) == s,
    decreases s.len(),
{
    reveal(Seq::filter);
    if s.len() > 0 {
        let p = s.drop_last();
        assert forall|i: int| 0 <= i < p.len() implies pred(#[trigger] p[i]) by {
            assert(p[i] == s[i]);
        }
        lemma_filter_keeps_all(p, pred);
        assert(pred(s[s.len() - 1]));
        assert(p.push(s.last()) =~= s);
    }
}

/// Character ids followed by the GPT-2 EOS id lose exactly that id when
/// special ids are left out.
proof fn lemma_gpt2_skip_eos(c: TokenizerConfig, words: Seq<usize>)
    requires
        c == sized_config(350, Some(1), None, Some(0), Some(0)),
        forall|k: int| 0 <= k < words.len() ==> #[trigger] words[k] >= 260,
    ensures
        words.push(0usize).filter(non_special(c)) == words,
{
    let pred = non_special(c);
    assert forall|k: int| 0 <= k < words.len() implies pred(#[trigger] words[k]) by {
        assert(words[k] >= 260);
    }
    lemma_filter_keeps_all(words, pred);
    reveal(Seq::filter);
    assert(words.push(0usize).drop_last() =~= words);
    assert(words.push(0usize).last() == 0usize);
    assert(!pred(0usize));
}

/// The ids of the words of a GPT-2 text are character ids, and they decode
/// to the words joined.
proof fn lemma_gpt2_words_part(t: BPETokenizer, text: Seq<char>)
    requires
        t.wf(),
        t.vocab_pairs() == numbered(gpt2_tokens(), 0),
        t.inverse_view() == gpt2_tokens(),
        t.merges_view().len() == 0,
        forall|i: int| 0 <= i < text.len() && !crate::text::is_ws(#[trigger] text[i]) ==> gpt2_printable(text[i]),
    ensures
        t.decoding(words_ids(t.vocab_view(), t.merges_view(), t.config_view().unk_token_id, split_ws(text)))
            == concat_words(split_ws(text)),
        forall|k: int|
            0 <= k < words_ids(t.vocab_view(), t.merges_view(), t.config_view().unk_token_id, split_ws(text)).len()
                ==> #[trigger] words_ids(
                t.vocab_view(),
                t.merges_view(),
                t.config_view().unk_token_id,
                split_ws(text),
            )[k] >= 260,
{
    lemma_split_ws_printable(text);
    lemma_words_decode(t, split_ws(text));
}

/// With the GPT-2 configuration, encoding with special tokens appends the
/// EOS id 0 to the ids of the words.
proof fn lemma_gpt2_encoding_eos(t: BPETokenizer, text: Seq<char>)
    requires
        t.config_view() == sized_config(350, Some(1), None, Some(0), Some(0)),
    ensures
        t.encoding(text, true) == words_ids(
            t.vocab_view(),
            t.merges_view(),
            t.config_view().unk_token_id,
            split_ws(text),
        ).push(0usize),
{
    let c = t.config_view();
    let words = words_ids(t.vocab_view(), t.merges_view(), c.unk_token_id, split_ws(text));
    assert(opt_special(true, c.bos_token_id) =~= Seq::<usize>::empty());
    assert(opt_special(true, c.eos_token_id) =~= seq![0usize]);
    assert(t.encode_spec(text, true) =~= words.push(0usize));
}

/// The GPT-2 tokenizer, skipping special tokens, decodes the encoding with
/// special tokens of a text made of whitespace and the characters
/// `'!'` ..= `'z'` to the text's words joined without separator: the
/// trailing EOS id 0 is dropped.  A non-empty such text without whitespace
/// comes back as it was.
#[verifier::rlimit(60)]
pub proof fn lemma_gpt2_round_trip_skipping_specials(t: BPETokenizer, text: Seq<char>)
    requires
        t.wf(),
        t.vocab_pairs() == numbered(gpt2_tokens(), 0),
        t.inverse_view() == gpt2_tokens(),
        t.merges_view().len() == 0,
        t.config_view() == sized_config(350, Some(1), None, Some(0), Some(0)),
        forall|i: int| 0 <= i < text.len() && !crate::text::is_ws(#[trigger] text[i]) ==> gpt2_printable(text[i]),
    ensures
        t.decoding(t.encoding(text, true).filter(non_special(t.spec_config())))
            == concat_words(split_ws(text)),
        text.len() > 0 && no_ws(text) ==> concat_words(split_ws(text)) == text,
{
    let ws = split_ws(text);
    let words = words_ids(t.vocab_view(), t.merges_view(), t.config_view().unk_token_id, ws);
    lemma_gpt2_words_part(t, text);
    lemma_gpt2_encoding_eos(t, text);
    lemma_gpt2_skip_eos(t.spec_config(), words);
    if text.len() > 0 && no_ws(text) {
        lemma_split_ws_one_word(text);
        assert(seq![text].drop_last() =~= Seq::<Seq<char>>::empty());
        assert(seq![text].last() == text);
        assert(concat_words(Seq::<Seq<char>>::empty()) == Seq::<char>::empty());
        assert(concat_words(seq![text]) =~= text);
    }
}

/// With an unknown id `u`, every token gets exactly one id, in order: its
/// vocabulary id when the vocabulary has it, else `u`.
pub proof fn lemma_token_ids_with_unknown(vocab: Map<Seq<char>, usize>, u: usize, toks: Seq<Seq<char>>)
    ensures
        token_ids(vocab, Some(u), toks).len() == toks.len(),
        forall|i: int|
            0 <= i < toks.len() ==> #[trigger] token_ids(vocab, Some(u), toks)[i] == if vocab.contains_key(
                toks[i],
            ) {
                vocab[toks[i]]
            } else {
                u
            },
    decreases toks.len(),
{
    if toks.len() > 0 {
        let p = toks.drop_last();
        lemma_token_ids_with_unknown(vocab, u, p);
        assert forall|i: int| 0 <= i < toks.len() implies #[trigger] token_ids(vocab, Some(u), toks)[i]
            == if vocab.contains_key(toks[i]) {
            vocab[toks[i]]
        } else {
            u
        } by {
            if i < p.len() {
                assert(toks[i] == p[i]);
                assert(token_ids(vocab, Some(u), toks)[i] == token_ids(vocab, Some(u), p)[i]);
            }
        }
    }
}

/// A word encodes, without special tokens, to one id per BPE token of the
/// word when an unknown id `u` is configured: the token's vocabulary id,
/// or `u` for a token that the vocabulary lacks.
pub proof fn lemma_word_encoding(t: BPETokenizer, w: Seq<char>, u: usize)
    requires
        w.len() > 0,
        no_ws(w),
        t.spec_config().unk_token_id == Some(u),
    ensures
        t.encoding(w, false).len() == bpe_word(w, t.merges_view()).len(),
        forall|i: int|
            0 <= i < bpe_word(w, t.merges_view()).len() ==> #[trigger] t.encoding(w, false)[i] == if t.vocab_view().contains_key(
                bpe_word(w, t.merges_view())[i],
            ) {
                t.vocab_view()[bpe_word(w, t.merges_view())[i]]
            } else {
                u
            },
{
    let toks = bpe_word(w, t.merges_view());
    lemma_split_ws_one_word(w);
    assert(seq![w].drop_last() =~= Seq::<Seq<char>>::empty());
    assert(seq![w].last() == w);
    let c = t.config_view();
    assert(words_ids(t.vocab_view(), t.merges_view(), c.unk_token_id, Seq::<Seq<char>>::empty()) == Seq::<usize>::empty());
    assert(t.encoding(w, false) =~= token_ids(t.vocab_view(), Some(u), toks));
    lemma_token_ids_with_unknown(t.vocab_view(), u, toks);
}

/// Leaving out special ids removes every configured special id (pad, BOS,
/// EOS, unknown, separator, class, mask) and keeps every other id.
pub proof fn lemma_non_special_filter(c: TokenizerConfig, ids: Seq<usize>)
    ensures
        forall|k: int|
            0 <= k < ids.filter(non_special(c)).len() ==> {
                let x = #[trigger] ids.filter(non_special(c))[k];
                &&& c.pad_token_id != Some(x)
                &&& c.bos_token_id != Some(x)
                &&& c.eos_token_id != Some(x)
                &&& c.unk_token_id != Some(x)
                &&& c.sep_token_id != Some(x)
                &&& c.cls_token_id != Some(x)
                &&& c.mask_token_id != Some(x)
            },
        forall|k: int|
            0 <= k < ids.len() && c.pad_token_id != Some(#[trigger] ids[k]) && c.bos_token_id != Some(ids[k])
                && c.eos_token_id != Some(ids[k]) && c.unk_token_id != Some(ids[k]) && c.sep_token_id
                != Some(ids[k]) && c.cls_token_id != Some(ids[k]) && c.mask_token_id != Some(ids[k])
                ==> ids.filter(non_special(c)).contains(ids[k]),
{
    broadcast use vstd::seq_lib::group_filter_ensures;
    let f = ids.filter(non_special(c));
    assert forall|k: int| 0 <= k < f.len() implies {
        let x = #[trigger] f[k];
        &&& c.pad_token_id != Some(x)
        &&& c.bos_token_id != Some(x)
        &&& c.eos_token_id != Some(x)
        &&& c.unk_token_id != Some(x)
        &&& c.sep_token_id != Some(x)
        &&& c.cls_token_id != Some(x)
        &&& c.mask_token_id != Some(x)
    } by {
        assert(non_special(c)(f[k]));
    }
    assert forall|k: int|
        0 <= k < ids.len() && c.pad_token_id != Some(#[trigger] ids[k]) && c.bos_token_id != Some(ids[k])
            && c.eos_token_id != Some(ids[k]) && c.unk_token_id != Some(ids[k]) && c.sep_token_id
            != Some(ids[k]) && c.cls_token_id != Some(ids[k]) && c.mask_token_id != Some(ids[k]) implies f.contains(
        ids[k],
    ) by {
        assert(non_special(c)(ids[k]));
        ids.lemma_filter_contains(non_special(c), k);
    }
}

/// With special ids left out, encoding with special tokens gives the same
/// ids as encoding without: the BOS and EOS ids that frame it are removed.
pub proof fn lemma_frame_removed(t: BPETokenizer, text: Seq<char>)
    ensures
        t.encoding(text, true).filter(non_special(t.spec_config())) == t.encoding(text, false).filter(
            non_special(t.spec_config()),
        ),
{
    broadcast use vstd::seq_lib::group_filter_ensures;
    reveal(Seq::filter);
    let c = t.spec_config();
    let p = non_special(c);
    let w = words_ids(t.vocab_view(), t.merges_view(), c.unk_token_id, split_ws(text));
    let b = opt_special(true, c.bos_token_id);
    let e = opt_special(true, c.eos_token_id);
    assert(t.encoding(text, false) =~= w);
    assert(t.encoding(text, true) =~= b + w + e);
    Seq::filter_distributes_over_add(b + w, e, p);
    Seq::filter_distributes_over_add(b, w, p);
    assert(b.filter(p) =~= Seq::<usize>::empty()) by {
        if b.len() > 0 {
            assert(b.drop_last() =~= Seq::<usize>::empty());
            assert(!p(b.last()));
        }
    }
    assert(e.filter(p) =~= Seq::<usize>::empty()) by {
        if e.len() > 0 {
            assert(e.drop_last() =~= Seq::<usize>::empty());
            assert(!p(e.last()));
        }
    }
    assert(b.filter(p) + w.filter(p) + e.filter(p) =~= w.filter(p));
}

} // verus!
