//! A WordPiece tokenizer: each word is lowercased and split greedily into
//! the longest vocabulary pieces, pieces after the first carrying a `##`
//! prefix.
//!
//! Pieces are cut at byte offsets of the lowercased word, one byte shorter
//! at each try; a cut inside a multi-byte character is not a string, so the
//! split is defined only where every failed try ends in an ASCII character.
use vstd::prelude::*;
use std::collections::HashMap;
use crate::mini::bpe::{lookup_ids, value_or};
use crate::mini::tokenizer::Tokenizer;
use crate::mini::vocab::{is_reverse_of, rev_view, reverse_vocab, ids_distinct, lemma_reverse_exact};
use crate::strmap::StrMap;
use crate::text::{
    views, to_chars, to_lowercase, lowercase_of, string_of, string_of_range, concat_strings,
    str_eq, split_ws, split_whitespace,
};

verus! {

broadcast use vstd::std_specs::hash::group_hash_axioms;

/// WordPiece tokenizer.
pub struct WordPieceTokenizer {
    vocab: StrMap,
    reverse_vocab: HashMap<usize, String>,
    unknown_id: usize,
    max_token_length: usize,
}

/// The piece `w[s..e]`, with `##` before it when it does not start the word.
pub open spec fn wp_piece(w: Seq<char>, s: int, e: int) -> Seq<char> {
    if s > 0 {
        "##"@ + w.subrange(s, e)
    } else {
        w.subrange(s, e)
    }
}

/// The longest piece from `s` found in the vocabulary, trying ends `e`,
/// `e - 1`, ...: `Some(Some(end))` when found, `Some(None)` when no piece
/// is, and `None` when a try would cut inside a character.
pub open spec fn wp_search(vocab: Map<Seq<char>, usize>, w: Seq<char>, s: nat, e: nat) -> Option<
    Option<nat>,
>
    decreases e,
{
    if e <= s {
        Some(None)
    } else if vocab.contains_key(wp_piece(w, s as int, e as int)) {
        Some(Some(e))
    } else if (w[e - 1] as u32) >= 0x80 {
        None
    } else {
        wp_search(vocab, w, s, (e - 1) as nat)
    }
}

/// Greedy split of `w` from `s`: longest pieces in turn; a position where
/// no piece is found ends the split with `[UNK]`.
pub open spec fn wp_split(vocab: Map<Seq<char>, usize>, w: Seq<char>, s: nat) -> Option<
    Seq<Seq<char>>,
>
    decreases w.len() - s,
{
    if s >= w.len() {
        Some(seq![])
    } else {
        match wp_search(vocab, w, s, w.len()) {
            None => None,
            Some(None) => Some(seq!["[UNK]"@]),
            Some(Some(e)) => if s < e && e <= w.len() {
                match wp_split(vocab, w, e) {
                    Some(rest) => Some(seq![wp_piece(w, s as int, e as int)] + rest),
                    None => None,
                }
            } else {
                None
            },
        }
    }
}

/// Tokens of one word: none for the empty word, the lowercased word when it
/// is in the vocabulary, else its greedy split.
pub open spec fn wp_tokens(vocab: Map<Seq<char>, usize>, word: Seq<char>) -> Option<Seq<Seq<char>>> {
    if word.len() == 0 {
        Some(seq![])
    } else {
        let w = lowercase_of(word);
        if vocab.contains_key(w) {
            Some(seq![w])
        } else {
            wp_split(vocab, w, 0)
        }
    }
}

/// Every word of the text can be tokenized.
pub open spec fn wp_encodable(vocab: Map<Seq<char>, usize>, text: Seq<char>) -> bool {
    forall|i: int| 0 <= i < split_ws(text).len() ==> (#[trigger] wp_tokens(vocab, split_ws(text)[i])) is Some
}

/// Ids of the tokens of words.
pub open spec fn wp_words_ids(vocab: Map<Seq<char>, usize>, unk: usize, words: Seq<Seq<char>>) -> Seq<usize>
    decreases words.len(),
{
    if words.len() == 0 {
        seq![]
    } else {
        wp_words_ids(vocab, unk, words.drop_last()) + lookup_ids(
            vocab,
            unk,
            wp_tokens(vocab, words.last())->0,
        )
    }
}

/// The id of `k` as a one-element sequence, or nothing when absent.
pub open spec fn opt_id(vocab: Map<Seq<char>, usize>, k: Seq<char>) -> Seq<usize> {
    if vocab.contains_key(k) {
        seq![vocab[k]]
    } else {
        seq![]
    }
}

/// Ids of a text: `[CLS]`, the tokens of each word, `[SEP]` (the markers
/// only when the vocabulary has them).
pub open spec fn wp_encode(vocab: Map<Seq<char>, usize>, unk: usize, text: Seq<char>) -> Seq<usize> {
    opt_id(vocab, "[CLS]"@) + wp_words_ids(vocab, unk, split_ws(text)) + opt_id(vocab, "[SEP]"@)
}

/// A continuation piece: starts with `##`.
pub open spec fn is_continuation(t: Seq<char>) -> bool {
    t.len() >= 2 && t[0] == '#' && t[1] == '#'
}

/// A marker token left out of decoded text.
pub open spec fn is_marker(t: Seq<char>) -> bool {
    t == "[CLS]"@ || t == "[SEP]"@ || t == "[PAD]"@
}

/// Text of ids: continuation pieces are glued to what precedes them without
/// their `##`, markers and unknown ids are left out, and other tokens are
/// separated by one space (none at the start or after a space).
pub open spec fn wp_decode(rev: Map<usize, Seq<char>>, ids: Seq<usize>) -> Seq<char>
    decreases ids.len(),
{
    if ids.len() == 0 {
        seq![]
    } else {
        let prev = wp_decode(rev, ids.drop_last());
        let id = ids.last();
        if !rev.contains_key(id) {
            prev
        } else {
            let t = rev[id];
            if is_continuation(t) {
                prev + t.subrange(2, t.len() as int)
            } else if is_marker(t) {
                prev
            } else if prev.len() > 0 && prev.last() != ' ' {
                prev.push(' ') + t
            } else {
                prev + t
            }
        }
    }
}

/// A split with tokens already taken in front of it.
pub open spec fn prepend(t: Seq<Seq<char>>, o: Option<Seq<Seq<char>>>) -> Option<Seq<Seq<char>>> {
    match o {
        Some(r) => Some(t + r),
        None => None,
    }
}

impl WordPieceTokenizer {
    /// The vocabulary.
    pub closed spec fn vocab_view(&self) -> Map<Seq<char>, usize> {
        self.vocab@
    }

    /// The reverse vocabulary.
    pub closed spec fn reverse_view(&self) -> Map<usize, Seq<char>> {
        rev_view(self.reverse_vocab@)
    }

    /// The id of unknown tokens.
    pub closed spec fn unk_view(&self) -> usize {
        self.unknown_id
    }

    /// The longest token length given at construction.
    pub closed spec fn max_len_view(&self) -> usize {
        self.max_token_length
    }

    /// Well-formedness: the reverse vocabulary is the reverse of the
    /// vocabulary.
    pub closed spec fn wf(&self) -> bool {
        &&& self.vocab.wf()
        &&& is_reverse_of(self.reverse_view(), self.vocab_view())
    }

    /// A well-formed tokenizer decodes each id through the reverse of its
    /// vocabulary.
    pub proof fn lemma_reverse(&self)
        requires
            self.wf(),
        ensures
            is_reverse_of(self.reverse_view(), self.vocab_view()),
    {
    }

    /// A tokenizer over `vocab`; unknown pieces get the id of `[UNK]`, or 0
    /// without it.
    pub fn new(vocab: StrMap, max_length: usize) -> (r: Self)
        requires
            vocab.wf(),
        ensures
            r.wf(),
            is_reverse_of(r.reverse_view(), r.vocab_view()),
            r.vocab_view() == vocab@,
            r.unk_view() == value_or(vocab@, "[UNK]"@, 0),
            r.max_len_view() == max_length,
    {
        let reverse_vocab = reverse_vocab(&vocab);
        let unknown_id = match vocab.get("[UNK]") {
            Some(v) => v,
            None => 0,
        };
        WordPieceTokenizer { vocab, reverse_vocab, unknown_id, max_token_length: max_length }
    }

    /// The piece `w[s..e]` with its `##` prefix when `s > 0`.
    fn piece(w: &[char], s: usize, e: usize) -> (r: String)
        requires
            s <= e <= w@.len(),
        ensures
            r@ == wp_piece(w@, s as int, e as int),
    {
        let body = string_of_range(w, s, e);
        if s > 0 {
            concat_strings("##", body.as_str())
        } else {
            body
        }
    }

    /// Greedy split of the characters `w`; `None` where a try would cut
    /// inside a character.
    fn split_word(&self, w: &[char]) -> (r: Option<Vec<String>>)
        requires
            self.wf(),
        ensures
            match wp_split(self.vocab_view(), w@, 0) {
                Some(t) => r matches Some(v) && views(v@) == t,
                None => r is None,
            },
    {
        let ghost v = self.vocab_view();
        let n = w.len();
        let mut tokens: Vec<String> = Vec::new();
        let mut start: usize = 0;
        while start < n
            invariant
                self.wf(),
                v == self.vocab_view(),
                n == w@.len(),
                start <= n,
                wp_split(v, w@, 0) == prepend(views(tokens@), wp_split(v, w@, start as nat)),
            decreases n - start,
        {
            let ghost target = wp_search(v, w@, start as nat, n as nat);
            let mut end: usize = n;
            let mut outcome: u8 = 0;
            while end > start && outcome == 0
                invariant
                    self.wf(),
                    v == self.vocab_view(),
                    n == w@.len(),
                    start < n,
                    start <= end <= n,
                    outcome <= 2,
                    outcome == 0 ==> wp_search(v, w@, start as nat, end as nat) == target,
                    outcome == 1 ==> target == Some(Some(end as nat)) && start < end,
                    outcome == 2 ==> target is None,
                decreases end + if outcome == 0 {
                    1int
                } else {
                    0int
                },
            {
                let p = Self::piece(w, start, end);
                if self.vocab.contains_key(p.as_str()) {
                    outcome = 1;
                } else if (w[end - 1] as u32) >= 0x80 {
                    outcome = 2;
                } else {
                    end -= 1;
                }
            }
            if outcome == 2 {
                return None;
            }
            if outcome == 0 {
                let ghost prev = views(tokens@);
                tokens.push("[UNK]".to_string());
                assert(views(tokens@) =~= prev + seq!["[UNK]"@]);
                return Some(tokens);
            }
            let ghost prev = views(tokens@);
            let p = Self::piece(w, start, end);
            tokens.push(p);
            proof {
                assert(views(tokens@) =~= prev.push(wp_piece(w@, start as int, end as int)));
                match wp_split(v, w@, end as nat) {
                    Some(rest) => {
                        assert(prev + (seq![wp_piece(w@, start as int, end as int)] + rest)
                            =~= views(tokens@) + rest);
                    },
                    None => {},
                }
            }
            start = end;
        }
        assert(views(tokens@) + seq![] =~= views(tokens@));
        Some(tokens)
    }

    /// Tokens of one word (see `tokenize_word`), or `None` for a word whose
    /// greedy split would cut inside a character.
    pub fn tokenize_word_checked(&self, word: &str) -> (r: Option<Vec<String>>)
        requires
            self.wf(),
        ensures
            match wp_tokens(self.vocab_view(), word@) {
                Some(t) => r matches Some(v) && views(v@) == t,
                None => r is None,
            },
    {
        let chars = to_chars(word);
        if chars.len() == 0 {
            let r: Vec<String> = Vec::new();
            assert(views(r@) =~= Seq::<Seq<char>>::empty());
            return Some(r);
        }
        let lower = to_lowercase(word);
        if self.vocab.contains_key(lower.as_str()) {
            let r = vec![lower];
            assert(views(r@) =~= seq![lowercase_of(word@)]);
            return Some(r);
        }
        let lc = to_chars(lower.as_str());
        self.split_word(lc.as_slice())
    }

    /// Tokens of one word: nothing for the empty word; the lowercased word
    /// when it is in the vocabulary; else, from the start, the longest
    /// vocabulary piece in turn (`##` before pieces after the first), and
    /// `[UNK]` in place of the rest where no piece is found.
    pub fn tokenize_word(&self, word: &str) -> (r: Vec<String>)
        requires
            self.wf(),
            wp_tokens(self.vocab_view(), word@) is Some,
        ensures
            views(r@) == wp_tokens(self.vocab_view(), word@)->0,
    {
        match self.tokenize_word_checked(word) {
            Some(v) => v,
            None => Vec::new(),
        }
    }

    /// Whether every word of `text` can be tokenized.
    pub fn can_encode_text(&self, text: &str) -> (r: bool)
        requires
            self.wf(),
        ensures
            r == wp_encodable(self.vocab_view(), text@),
    {
        let chars = to_chars(text);
        let words = split_whitespace(chars.as_slice());
        let ghost ws = split_ws(text@);
        let mut i: usize = 0;
        while i < words.len()
            invariant
                self.wf(),
                words.deep_view() == ws,
                ws == split_ws(text@),
                i <= ws.len(),
                forall|k: int| 0 <= k < i ==> (#[trigger] wp_tokens(self.vocab_view(), ws[k])) is Some,
            decreases words.len() - i,
        {
            let word = string_of(words[i].as_slice());
            assert(words[i as int]@ == ws[i as int]);
            if self.tokenize_word_checked(word.as_str()).is_none() {
                return false;
            }
            i += 1;
        }
        true
    }

    /// Ids of a text, or `None` when a word of it cannot be tokenized.
    pub fn try_encode(&self, text: &str) -> (r: Option<Vec<usize>>)
        requires
            self.wf(),
        ensures
            wp_encodable(self.vocab_view(), text@) ==> (r matches Some(v) && v@ == wp_encode(
                self.vocab_view(),
                self.unk_view(),
                text@,
            )),
            !wp_encodable(self.vocab_view(), text@) ==> r is None,
    {
        if self.can_encode_text(text) {
            Some(self.encode(text))
        } else {
            None
        }
    }
}

impl Tokenizer for WordPieceTokenizer {
    open spec fn inv(&self) -> bool {
        self.wf()
    }

    open spec fn can_encode(&self, text: Seq<char>) -> bool {
        wp_encodable(self.vocab_view(), text)
    }

    open spec fn encoding(&self, text: Seq<char>) -> Seq<usize> {
        wp_encode(self.vocab_view(), self.unk_view(), text)
    }

    open spec fn decoding(&self, ids: Seq<usize>) -> Seq<char> {
        wp_decode(self.reverse_view(), ids)
    }

    open spec fn vocab_len(&self) -> nat {
        self.vocab_view().len()
    }

    open spec fn unk_id(&self) -> usize {
        self.unk_view()
    }

    fn encode(&self, text: &str) -> (r: Vec<usize>) {
        let mut result: Vec<usize> = Vec::new();
        if let Some(id) = self.vocab.get("[CLS]") {
            result.push(id);
        }
        assert(result@ =~= opt_id(self.vocab_view(), "[CLS]"@));
        let ghost head = result@;
        let chars = to_chars(text);
        let words = split_whitespace(chars.as_slice());
        let ghost ws = split_ws(text@);
        let mut i: usize = 0;
        while i < words.len()
            invariant
                self.wf(),
                wp_encodable(self.vocab_view(), text@),
                words.deep_view() == ws,
                ws == split_ws(text@),
                i <= ws.len(),
                result@ == head + wp_words_ids(self.vocab_view(), self.unk_view(), ws.take(i as int)),
            decreases words.len() - i,
        {
            let word = string_of(words[i].as_slice());
            assert(words[i as int]@ == ws[i as int]);
            assert(wp_tokens(self.vocab_view(), ws[i as int]) is Some);
            let tokens = self.tokenize_word(word.as_str());
            let ghost toks = views(tokens@);
            let ghost before = result@;
            let mut k: usize = 0;
            while k < tokens.len()
                invariant
                    self.wf(),
                    toks == views(tokens@),
                    k <= tokens@.len(),
                    result@ == before + lookup_ids(self.vocab_view(), self.unk_view(), toks).take(k as int),
                decreases tokens.len() - k,
            {
                let id = match self.vocab.get(tokens[k].as_str()) {
                    Some(v) => v,
                    None => self.unknown_id,
                };
                result.push(id);
                assert(result@ =~= before + lookup_ids(self.vocab_view(), self.unk_view(), toks).take(k + 1));
                k += 1;
            }
            proof {
                assert(lookup_ids(self.vocab_view(), self.unk_view(), toks).take(toks.len() as int)
                    =~= lookup_ids(self.vocab_view(), self.unk_view(), toks));
                assert(ws.take(i + 1).drop_last() =~= ws.take(i as int));
                assert(ws.take(i + 1).last() == ws[i as int]);
                assert(result@ =~= head + wp_words_ids(self.vocab_view(), self.unk_view(), ws.take(i + 1)));
            }
            i += 1;
        }
        assert(ws.take(ws.len() as int) =~= ws);
        let ghost body = result@;
        if let Some(id) = self.vocab.get("[SEP]") {
            result.push(id);
        }
        assert(result@ =~= body + opt_id(self.vocab_view(), "[SEP]"@));
        result
    }

    fn decode(&self, ids: &[usize]) -> (r: String) {
        let mut out: Vec<char> = Vec::new();
        let mut k: usize = 0;
        while k < ids.len()
            invariant
                k <= ids@.len(),
                out@ == wp_decode(self.reverse_view(), ids@.take(k as int)),
            decreases ids.len() - k,
        {
            assert(ids@.take(k + 1).drop_last() =~= ids@.take(k as int));
            let ghost prev = out@;
            match self.reverse_vocab.get(&ids[k]) {
                Some(tok) => {
                    let tc = to_chars(tok.as_str());
                    if tc.len() >= 2 && tc[0] == '#' && tc[1] == '#' {
                        let mut j: usize = 2;
                        while j < tc.len()
                            invariant
                                2 <= j <= tc@.len(),
                                out@ == prev + tc@.subrange(2, j as int),
                            decreases tc.len() - j,
                        {
                            out.push(tc[j]);
                            assert(out@ =~= prev + tc@.subrange(2, j + 1));
                            j += 1;
                        }
                    } else if !(str_eq(tok.as_str(), "[CLS]") || str_eq(tok.as_str(), "[SEP]")
                        || str_eq(tok.as_str(), "[PAD]")) {
                        if out.len() > 0 && out[out.len() - 1] != ' ' {
                            out.push(' ');
                        }
                        let ghost mid = out@;
                        let mut j: usize = 0;
                        while j < tc.len()
                            invariant
                                j <= tc@.len(),
                                out@ == mid + tc@.take(j as int),
                            decreases tc.len() - j,
                        {
                            out.push(tc[j]);
                            assert(out@ =~= mid + tc@.take(j + 1));
                            j += 1;
                        }
                        assert(tc@.take(tc@.len() as int) =~= tc@);
                    }
                },
                None => {},
            }
            k += 1;
        }
        assert(ids@.take(ids@.len() as int) =~= ids@);
        string_of(out.as_slice())
    }

    fn vocab_size(&self) -> (r: usize) {
        self.vocab.len()
    }

    fn unknown_id(&self) -> (r: usize) {
        self.unknown_id
    }
}

/// The markers `[CLS]`, `[SEP]` and `[PAD]` are invisible in decoded
/// text: when the vocabulary gives `marker` the id `m` (and no other token
/// shares it), decoding `ids` followed by `m` gives the same text as
/// decoding `ids`.
pub proof fn lemma_markers_invisible(t: WordPieceTokenizer, ids: Seq<usize>, marker: Seq<char>)
    requires
        t.wf(),
        ids_distinct(t.vocab_view()),
        marker == "[CLS]"@ || marker == "[SEP]"@ || marker == "[PAD]"@,
        t.vocab_view().contains_key(marker),
    ensures
        t.decoding(ids.push(t.vocab_view()[marker])) == t.decoding(ids),
{
    reveal_strlit("[CLS]");
    reveal_strlit("[SEP]");
    reveal_strlit("[PAD]");
    t.lemma_reverse();
    lemma_reverse_exact(t.reverse_view(), t.vocab_view(), marker);
    let m = t.vocab_view()[marker];
    assert(ids.push(m).drop_last() =~= ids);
    assert(!is_continuation(marker));
}

} // verus!
