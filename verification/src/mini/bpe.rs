//! A character-level BPE tokenizer.  Text is split into characters, each
//! merge rule `(token1, token2)` joins adjacent tokens equal to it into one
//! token, and tokens are looked up in the vocabulary.
use vstd::prelude::*;
use std::collections::HashMap;
use crate::merge::{pair_scan, pair_scan_exec, lemma_pair_scan_len, lemma_pair_scan_unchanged};
use crate::mini::tokenizer::Tokenizer;
use crate::mini::vocab::{is_reverse_of, rev_view, reverse_vocab, ids_distinct};
use crate::strmap::{StrMap, numbered, map_of, lemma_map_of_contains};
use crate::text::{
    views, to_chars, char_string, concat_strings,
};

verus! {

broadcast use vstd::std_specs::hash::group_hash_axioms;

/// Options of BPE training.
#[derive(Debug, Clone)]
pub struct BPEConfig {
    pub vocab_size: usize,
    pub min_frequency: usize,
    pub special_tokens: Vec<String>,
}

/// The special tokens, with ids 0 to 3.
pub open spec fn mini_special_tokens() -> Seq<Seq<char>> {
    seq!["<pad>"@, "<unk>"@, "<bos>"@, "<eos>"@]
}

fn special_token_strings() -> (r: Vec<String>)
    ensures
        views(r@) == mini_special_tokens(),
{
    let r = vec!["<pad>".to_string(), "<unk>".to_string(), "<bos>".to_string(), "<eos>".to_string()];
    assert(views(r@) =~= mini_special_tokens());
    r
}

impl Default for BPEConfig {
    /// 50000 entries, pairs seen at least twice, and the four special tokens.
    fn default() -> (r: Self)
        ensures
            r.vocab_size == 50000,
            r.min_frequency == 2,
            views(r.special_tokens@) == mini_special_tokens(),
    {
        BPEConfig { vocab_size: 50000, min_frequency: 2, special_tokens: special_token_strings() }
    }
}

/// BPE tokenizer over characters.
pub struct BPETokenizer {
    vocab: StrMap,
    reverse_vocab: HashMap<usize, String>,
    merges: Vec<(String, String)>,
    base_vocab: Vec<String>,
    unknown_id: usize,
}

/// Views of merge rules.
pub open spec fn rule_views(m: Seq<(String, String)>) -> Seq<(Seq<char>, Seq<char>)> {
    m.map_values(|p: (String, String)| (p.0@, p.1@))
}

/// The tokens of the characters of a text, one each.
pub open spec fn char_tokens(s: Seq<char>) -> Seq<Seq<char>> {
    Seq::new(s.len(), |i: int| seq![s[i]])
}

/// The token that merging `a` with `b` gives: the two joined.
pub open spec fn joined(a: Seq<char>, b: Seq<char>) -> Seq<char> {
    a + b
}

/// Scans with rule `(a, b)` repeated until one merges nothing.
pub open spec fn merge_to_fixpoint(w: Seq<Seq<char>>, a: Seq<char>, b: Seq<char>) -> Seq<Seq<char>>
    decreases w.len(),
{
    let (w1, changed) = pair_scan(w, a, b, joined(a, b), 0);
    if changed && w1.len() < w.len() {
        merge_to_fixpoint(w1, a, b)
    } else {
        w1
    }
}

/// The merge rules applied in order, each to a fixpoint: rule `(a, b)`
/// joins each adjacent `a`, `b` into `a + b`.
pub open spec fn apply_merges(w: Seq<Seq<char>>, rules: Seq<(Seq<char>, Seq<char>)>) -> Seq<Seq<char>>
    decreases rules.len(),
{
    if rules.len() == 0 {
        w
    } else {
        let w0 = apply_merges(w, rules.drop_last());
        merge_to_fixpoint(w0, rules.last().0, rules.last().1)
    }
}

/// Vocabulary ids of tokens, with `unk` for tokens not in the vocabulary.
pub open spec fn lookup_ids(vocab: Map<Seq<char>, usize>, unk: usize, toks: Seq<Seq<char>>) -> Seq<usize> {
    Seq::new(
        toks.len(),
        |i: int|
            if vocab.contains_key(toks[i]) {
                vocab[toks[i]]
            } else {
                unk
            },
    )
}

/// Text of ids: each known id gives its token, others give `<unk>`.
pub open spec fn decode_with(rev: Map<usize, Seq<char>>, ids: Seq<usize>) -> Seq<char>
    decreases ids.len(),
{
    if ids.len() == 0 {
        seq![]
    } else {
        decode_with(rev, ids.drop_last()) + if rev.contains_key(ids.last()) {
            rev[ids.last()]
        } else {
            "<unk>"@
        }
    }
}

/// The value of `k`, or `d` when it is absent.
pub open spec fn value_or(m: Map<Seq<char>, usize>, k: Seq<char>, d: usize) -> usize {
    if m.contains_key(k) {
        m[k]
    } else {
        d
    }
}

/// Number of characters `char_level` adds for a requested vocabulary
/// size: at least one, at most the 95 printable ASCII characters.
pub open spec fn char_level_count(vocab_size: usize) -> nat {
    if vocab_size <= 5 {
        1
    } else if vocab_size - 4 >= 95 {
        95
    } else {
        (vocab_size - 4) as nat
    }
}

/// The first `n` printable ASCII characters, from the space on.
pub open spec fn ascii_char_tokens(n: nat) -> Seq<Seq<char>> {
    Seq::new(n, |j: int| seq![(32 + j) as char])
}

/// Entries of `char_level`'s vocabulary in insertion order.
pub open spec fn char_level_pairs(vocab_size: usize) -> Seq<(Seq<char>, usize)> {
    numbered(mini_special_tokens(), 0) + numbered(ascii_char_tokens(char_level_count(vocab_size)), 4)
}

/// A token of one UTF-8 byte: a single ASCII character.
pub open spec fn single_byte(k: Seq<char>) -> bool {
    k.len() == 1 && (k[0] as u32) < 0x80
}

fn is_single_byte(k: &str) -> (r: bool)
    ensures
        r == single_byte(k@),
{
    let cs = to_chars(k);
    cs.len() == 1 && (cs[0] as u32) < 0x80
}

impl BPETokenizer {
    /// The vocabulary.
    pub closed spec fn vocab_view(&self) -> Map<Seq<char>, usize> {
        self.vocab@
    }

    /// The reverse vocabulary.
    pub closed spec fn reverse_view(&self) -> Map<usize, Seq<char>> {
        rev_view(self.reverse_vocab@)
    }

    /// The merge rules, in rank order.
    pub closed spec fn merges_view(&self) -> Seq<(Seq<char>, Seq<char>)> {
        rule_views(self.merges@)
    }

    /// The base vocabulary.
    pub closed spec fn base_view(&self) -> Set<Seq<char>> {
        Set::new(|k: Seq<char>| views(self.base_vocab@).contains(k))
    }

    /// The id of unknown tokens.
    pub closed spec fn unk_view(&self) -> usize {
        self.unknown_id
    }

    /// Well-formedness: the reverse vocabulary is the reverse of the
    /// vocabulary.
    pub closed spec fn wf(&self) -> bool {
        &&& self.vocab.wf()
        &&& is_reverse_of(self.reverse_view(), self.vocab_view())
    }

    /// A well-formed tokenizer decodes each id through the reverse of its
    /// vocabulary.
    pub proof fn lemma_reverse(&self)
        requires
            self.wf(),
        ensures
            is_reverse_of(self.reverse_view(), self.vocab_view()),
    {
    }

    /// Ids of a text.
    pub open spec fn encode_spec(&self, text: Seq<char>) -> Seq<usize> {
        lookup_ids(self.vocab_view(), self.unk_view(), apply_merges(char_tokens(text), self.merges_view()))
    }
}

/// Keys of a vocabulary, all of them or those of one byte.
fn keys_of(vocab: &StrMap, single_byte_only: bool) -> (r: Vec<String>)
    requires
        vocab.wf(),
    ensures
        forall|k: Seq<char>|
            #[trigger] views(r@).contains(k) <==> vocab@.contains_key(k) && (!single_byte_only
                || single_byte(k)),
{
    let mut r: Vec<String> = Vec::new();
    let n = vocab.entry_count();
    let ghost pairs = vocab.pairs();
    let mut e: usize = 0;
    while e < n
        invariant
            pairs == vocab.pairs(),
            n == pairs.len(),
            e <= n,
            forall|k: Seq<char>|
                #[trigger] views(r@).contains(k) <==> exists|j: int|
                    0 <= j < e && pairs[j].0 == k && (!single_byte_only || single_byte(k)),
        decreases n - e,
    {
        let key = vocab.key_at(e);
        if !single_byte_only || is_single_byte(key.as_str()) {
            let ghost old_r = views(r@);
            r.push(key.clone());
            proof {
                assert(views(r@) =~= old_r.push(pairs[e as int].0));
                assert(!single_byte_only || single_byte(pairs[e as int].0));
                assert forall|k: Seq<char>|
                    #[trigger] views(r@).contains(k) <==> exists|j: int|
                        0 <= j < e + 1 && pairs[j].0 == k && (!single_byte_only || single_byte(k)) by {
                    if views(r@).contains(k) {
                        let i = choose|i: int| 0 <= i < views(r@).len() && views(r@)[i] == k;
                        if i < old_r.len() {
                            assert(old_r[i] == k);
                            assert(old_r.contains(k));
                        } else {
                            assert(0 <= e < e + 1 && pairs[e as int].0 == k);
                        }
                    }
                    if exists|j: int|
                        0 <= j < e + 1 && pairs[j].0 == k && (!single_byte_only || single_byte(k)) {
                        let j = choose|j: int|
                            0 <= j < e + 1 && pairs[j].0 == k && (!single_byte_only || single_byte(
                                k,
                            ));
                        if j < e {
                            assert(old_r.contains(k));
                            let i = choose|i: int| 0 <= i < old_r.len() && old_r[i] == k;
                            assert(views(r@)[i] == k);
                        } else {
                            assert(views(r@)[old_r.len() as int] == k);
                        }
                    }
                }
            }
        } else {
            proof {
                assert(single_byte_only && !single_byte(pairs[e as int].0));
                assert forall|k: Seq<char>|
                    #[trigger] views(r@).contains(k) <==> exists|j: int|
                        0 <= j < e + 1 && pairs[j].0 == k && (!single_byte_only || single_byte(k)) by {
                    if views(r@).contains(k) {
                        let j = choose|j: int|
                            0 <= j < e && pairs[j].0 == k && (!single_byte_only || single_byte(k));
                        assert(0 <= j < e + 1 && pairs[j].0 == k && (!single_byte_only || single_byte(k)));
                    }
                    if exists|j: int|
                        0 <= j < e + 1 && pairs[j].0 == k && (!single_byte_only || single_byte(k)) {
                        let j = choose|j: int|
                            0 <= j < e + 1 && pairs[j].0 == k && (!single_byte_only || single_byte(
                                k,
                            ));
                        assert(j < e);
                    }
                }
            }
        }
        e += 1;
    }
    proof {
        assert forall|k: Seq<char>|
            #[trigger] views(r@).contains(k) <==> vocab@.contains_key(k) && (!single_byte_only
                || single_byte(k)) by {
            lemma_map_of_contains(pairs, k);
        }
    }
    r
}

/// A vocabulary of the four special tokens, numbered 0 to 3.
fn special_vocab() -> (vocab: StrMap)
    ensures
        vocab.wf(),
        vocab.pairs() == numbered(mini_special_tokens(), 0),
{
    let mut vocab = StrMap::new();
    let specials = special_token_strings();
    let mut i: usize = 0;
    while i < 4
        invariant
            i <= 4,
            vocab.wf(),
            views(specials@) == mini_special_tokens(),
            vocab.pairs() == numbered(mini_special_tokens().take(i as int), 0),
        decreases 4 - i,
    {
        proof {
            lemma_mini_specials();
            let p = vocab.pairs();
            lemma_map_of_contains(p, specials@[i as int]@);
            assert forall|e: int| 0 <= e < p.len() implies p[e].0 != specials@[i as int]@ by {
                assert(p[e].0 == mini_special_tokens()[e]);
            }
        }
        vocab.insert(specials[i].clone(), i);
        assert(vocab.pairs() =~= numbered(mini_special_tokens().take(i + 1), 0));
        i += 1;
    }
    assert(mini_special_tokens().take(4) =~= mini_special_tokens());
    vocab
}

impl BPETokenizer {
    /// A tokenizer with the given vocabulary and merge rules.  The unknown
    /// id is that of `<unk>`, or 0 without it; the base vocabulary is the
    /// set of one-byte tokens.
    pub fn new(vocab: StrMap, merges: Vec<(String, String)>) -> (r: Self)
        requires
            vocab.wf(),
        ensures
            r.wf(),
            is_reverse_of(r.reverse_view(), r.vocab_view()),
            r.vocab_view() == vocab@,
            r.merges_view() == rule_views(merges@),
            r.unk_view() == value_or(vocab@, "<unk>"@, 0),
            r.base_view() == Set::new(|k: Seq<char>| vocab@.contains_key(k) && single_byte(k)),
    {
        let reverse_vocab = reverse_vocab(&vocab);
        let unknown_id = match vocab.get("<unk>") {
            Some(v) => v,
            None => 0,
        };
        let base_vocab = keys_of(&vocab, true);
        let r = BPETokenizer { vocab, reverse_vocab, merges, base_vocab, unknown_id };
        assert(r.base_view() =~= Set::new(|k: Seq<char>| r.vocab@.contains_key(k) && single_byte(k)));
        r
    }

    /// A character-level tokenizer: the four special tokens, then printable
    /// ASCII characters from the space on, each numbered in turn, until the
    /// vocabulary reaches `vocab_size` (at least one character, at most all
    /// 95).  No merge rules; `<unk>` (id 1) for unknown characters.
    pub fn char_level(vocab_size: usize) -> (r: Self)
        ensures
            r.wf(),
            is_reverse_of(r.reverse_view(), r.vocab_view()),
            r.vocab_view() == map_of(char_level_pairs(vocab_size)),
            r.merges_view().len() == 0,
            r.unk_view() == 1,
            r.base_view() == r.vocab_view().dom(),
    {
        let mut vocab = special_vocab();
        let ghost base = vocab.pairs();
        let mut id: usize = 4;
        let mut c: u8 = 32;
        let mut stop = false;
        while c < 127 && !stop
            invariant
                32 <= c <= 127,
                id == 4 + (c - 32),
                vocab.wf(),
                base == numbered(mini_special_tokens(), 0),
                vocab.pairs() == base + numbered(ascii_char_tokens((c - 32) as nat), 4),
                !stop ==> (c == 32 || id < vocab_size),
                stop ==> c >= 33 && id >= vocab_size && (c == 33 || id - 1 < vocab_size),
            decreases 127 - c,
        {
            let s = char_string(c as char);
            let present = vocab.contains_key(s.as_str());
            proof {
                lemma_mini_specials();
                let p = vocab.pairs();
                lemma_map_of_contains(p, s@);
                assert forall|e: int| 0 <= e < p.len() implies p[e].0 != s@ by {
                    if e < 4 {
                        assert(p[e].0 == mini_special_tokens()[e]);
                        assert(p[e].0.len() == 5);
                    } else {
                        assert(p[e] == numbered(ascii_char_tokens((c - 32) as nat), 4)[e - 4]);
                        assert(p[e].0 == seq![(32 + (e - 4)) as char]);
                        assert(p[e].0[0] != s@[0]);
                    }
                }
            }
            if !present {
                vocab.insert(s, id);
                id += 1;
                assert(vocab.pairs() =~= base + numbered(ascii_char_tokens((c + 1 - 32) as nat), 4));
                c += 1;
                if id >= vocab_size {
                    stop = true;
                }
            }
        }
        proof {
            if stop {
                if c == 33 {
                    assert(vocab_size <= 5);
                } else {
                    assert(id == vocab_size);
                }
            } else {
                assert(c == 127);
                assert(vocab_size > 99);
            }
            assert((c - 32) as nat == char_level_count(vocab_size));
            assert(vocab.pairs() =~= char_level_pairs(vocab_size));
        }
        let reverse_vocab = reverse_vocab(&vocab);
        let base_vocab = keys_of(&vocab, false);
        let r = BPETokenizer { vocab, reverse_vocab, merges: Vec::new(), base_vocab, unknown_id: 1 };
        assert(r.merges_view() =~= Seq::<(Seq<char>, Seq<char>)>::empty());
        assert(r.base_view() =~= r.vocab_view().dom());
        r
    }

    /// Ids of a text: its characters, merged by each rule in turn until the
    /// rule no longer applies, then looked up (unknown tokens get the
    /// unknown id).
    pub fn encode_text(&self, text: &str) -> (r: Vec<usize>)
        requires
            self.wf(),
        ensures
            r@ == self.encode_spec(text@),
    {
        let chars = to_chars(text);
        let mut tokens: Vec<String> = Vec::new();
        let mut k: usize = 0;
        while k < chars.len()
            invariant
                chars@ == text@,
                k <= chars@.len(),
                views(tokens@) == char_tokens(text@).take(k as int),
            decreases chars.len() - k,
        {
            let ghost prev = views(tokens@);
            let t = char_string(chars[k]);
            tokens.push(t);
            assert(views(tokens@) =~= prev.push(seq![text@[k as int]]));
            assert(views(tokens@) =~= char_tokens(text@).take(k + 1));
            k += 1;
        }
        assert(char_tokens(text@).take(chars@.len() as int) =~= char_tokens(text@));
        let ghost rules = self.merges_view();
        let mut m: usize = 0;
        while m < self.merges.len()
            invariant
                rules == self.merges_view(),
                rules.len() == self.merges@.len(),
                m <= rules.len(),
                views(tokens@) == apply_merges(char_tokens(text@), rules.take(m as int)),
            decreases self.merges.len() - m,
        {
            proof {
                assert(rules.take(m + 1).drop_last() =~= rules.take(m as int));
                assert(rules.take(m + 1).last() == rules[m as int]);
            }
            let a = self.merges[m].0.as_str();
            let b = self.merges[m].1.as_str();
            let merged = concat_strings(a, b);
            let ghost target = merge_to_fixpoint(views(tokens@), a@, b@);
            let mut changed = true;
            while changed
                invariant
                    merged@ == joined(a@, b@),
                    changed ==> merge_to_fixpoint(views(tokens@), a@, b@) == target,
                    !changed ==> views(tokens@) == target,
                decreases views(tokens@).len() * 2 + if changed {
                    1int
                } else {
                    0int
                },
            {
                let ghost w = views(tokens@);
                changed = pair_scan_exec(&mut tokens, a, b, merged.as_str());
                proof {
                    lemma_pair_scan_len(w, a@, b@, joined(a@, b@), 0);
                    lemma_pair_scan_unchanged(w, a@, b@, joined(a@, b@), 0);
                }
            }
            m += 1;
        }
        assert(rules.take(rules.len() as int) =~= rules);
        let ghost toks = views(tokens@);
        let mut ids: Vec<usize> = Vec::new();
        let mut t: usize = 0;
        while t < tokens.len()
            invariant
                self.wf(),
                toks == views(tokens@),
                t <= tokens@.len(),
                ids@ == lookup_ids(self.vocab_view(), self.unk_view(), toks).take(t as int),
            decreases tokens.len() - t,
        {
            let id = match self.vocab.get(tokens[t].as_str()) {
                Some(v) => v,
                None => self.unknown_id,
            };
            ids.push(id);
            assert(ids@ =~= lookup_ids(self.vocab_view(), self.unk_view(), toks).take(t + 1));
            t += 1;
        }
        assert(lookup_ids(self.vocab_view(), self.unk_view(), toks).take(tokens@.len() as int)
            =~= lookup_ids(self.vocab_view(), self.unk_view(), toks));
        ids
    }

    /// Text of ids: the tokens of known ids, `<unk>` for the others, joined
    /// without separator.
    pub fn decode_ids(&self, ids: &[usize]) -> (r: String)
        ensures
            r@ == decode_with(self.reverse_view(), ids@),
    {
        let mut s = String::new();
        let mut k: usize = 0;
        while k < ids.len()
            invariant
                k <= ids@.len(),
                s@ == decode_with(self.reverse_view(), ids@.take(k as int)),
            decreases ids.len() - k,
        {
            assert(ids@.take(k + 1).drop_last() =~= ids@.take(k as int));
            match self.reverse_vocab.get(&ids[k]) {
                Some(tok) => s.append(tok.as_str()),
                None => s.append("<unk>"),
            }
            k += 1;
        }
        assert(ids@.take(ids@.len() as int) =~= ids@);
        s
    }
}

proof fn lemma_mini_specials()
    ensures
        mini_special_tokens().len() == 4,
        forall|i: int| 0 <= i < 4 ==> #[trigger] mini_special_tokens()[i].len() == 5,
        forall|i: int, j: int|
            0 <= i < j < 4 ==> mini_special_tokens()[i] != mini_special_tokens()[j],
{
    reveal_strlit("<pad>");
    reveal_strlit("<unk>");
    reveal_strlit("<bos>");
    reveal_strlit("<eos>");
    let t = mini_special_tokens();
    assert forall|i: int, j: int| 0 <= i < j < 4 implies t[i] != t[j] by {
        assert(t[i][1] != t[j][1]);
    }
}

impl Tokenizer for BPETokenizer {
    open spec fn inv(&self) -> bool {
        self.wf()
    }

    open spec fn can_encode(&self, text: Seq<char>) -> bool {
        true
    }

    open spec fn encoding(&self, text: Seq<char>) -> Seq<usize> {
        self.encode_spec(text)
    }

    open spec fn decoding(&self, ids: Seq<usize>) -> Seq<char> {
        decode_with(self.reverse_view(), ids)
    }

    open spec fn vocab_len(&self) -> nat {
        self.vocab_view().len()
    }

    open spec fn unk_id(&self) -> usize {
        self.unk_view()
    }

    fn encode(&self, text: &str) -> (r: Vec<usize>) {
        self.encode_text(text)
    }

    fn decode(&self, ids: &[usize]) -> (r: String) {
        self.decode_ids(ids)
    }

    fn vocab_size(&self) -> (r: usize) {
        self.vocab.len()
    }

    fn unknown_id(&self) -> (r: usize) {
        self.unknown_id
    }
}

// ----------------------------------------------------------------------
// Training demo: numbering characters by frequency
// ----------------------------------------------------------------------

/// Occurrences of `c` in `s`.
pub open spec fn occurrences(s: Seq<char>, c: char) -> nat
    decreases s.len(),
{
    if s.len() == 0 {
        0
    } else {
        occurrences(s.drop_last(), c) + if s.last() == c {
            1nat
        } else {
            0nat
        }
    }
}

/// The characters of the texts, one text after the other.
pub open spec fn corpus_chars(texts: Seq<Seq<char>>) -> Seq<char>
    decreases texts.len(),
{
    if texts.len() == 0 {
        seq![]
    } else {
        corpus_chars(texts.drop_last()) + texts.last()
    }
}

/// The characters of each text of a corpus.
pub open spec fn str_views(v: Seq<&str>) -> Seq<Seq<char>> {
    v.map_values(|s: &str| s@)
}

/// How many characters a vocabulary of `target_vocab` entries leaves room
/// for after the four special tokens.
pub open spec fn char_slots(target_vocab: usize) -> nat {
    if target_vocab > 4 {
        (target_vocab - 4) as nat
    } else {
        0
    }
}

/// `chosen` holds characters of `all`, each once, by non-increasing
/// frequency, as many as `slots` allows: a character left out occurs no
/// more often than any chosen one, and characters are left out only when
/// all slots are taken.  (Which of equally frequent characters come first
/// is left open.)
pub open spec fn ranked_by_frequency(all: Seq<char>, chosen: Seq<char>, slots: nat) -> bool {
    &&& chosen.len() <= slots
    &&& chosen.no_duplicates()
    &&& forall|j: int| 0 <= j < chosen.len() ==> all.contains(#[trigger] chosen[j])
    &&& forall|i: int, j: int|
        0 <= i < j < chosen.len() ==> occurrences(all, #[trigger] chosen[i]) >= occurrences(
            all,
            #[trigger] chosen[j],
        )
    &&& forall|c: char, j: int|
        #![trigger chosen[j], all.contains(c)]
        0 <= j < chosen.len() && all.contains(c) && !chosen.contains(c) ==> occurrences(
            all,
            chosen[j],
        ) >= occurrences(all, c)
    &&& chosen.len() < slots ==> forall|c: char| all.contains(c) ==> chosen.contains(c)
}

/// Vocabulary entries of a trained tokenizer: the special tokens, then the
/// chosen characters numbered from 4.
pub open spec fn trained_pairs(chosen: Seq<char>) -> Seq<(Seq<char>, usize)> {
    numbered(mini_special_tokens(), 0) + numbered(chosen.map_values(|c: char| seq![c]), 4)
}

proof fn lemma_occurrences_push(s: Seq<char>, x: char, c: char)
    ensures
        occurrences(s.push(x), c) == occurrences(s, c) + if x == c {
            1nat
        } else {
            0nat
        },
{
    assert(s.push(x).drop_last() =~= s);
}

proof fn lemma_occurrences_contains(s: Seq<char>, c: char)
    ensures
        occurrences(s, c) <= s.len(),
        occurrences(s, c) > 0 <==> s.contains(c),
    decreases s.len(),
{
    if s.len() > 0 {
        let t = s.drop_last();
        lemma_occurrences_contains(t, c);
        if t.contains(c) {
            let i = choose|i: int| 0 <= i < t.len() && t[i] == c;
            assert(s[i] == c);
        }
        if s.contains(c) && s.last() != c {
            let i = choose|i: int| 0 <= i < s.len() && s[i] == c;
            assert(i < s.len() - 1);
            assert(t[i] == c);
        }
    }
}

/// The characters of all texts, in order.
fn gather_chars(corpus: &[&str]) -> (r: Vec<char>)
    ensures
        r@ == corpus_chars(str_views(corpus@)),
{
    let ghost texts = str_views(corpus@);
    let mut all: Vec<char> = Vec::new();
    let mut t: usize = 0;
    while t < corpus.len()
        invariant
            texts == str_views(corpus@),
            t <= corpus@.len(),
            all@ == corpus_chars(texts.take(t as int)),
        decreases corpus.len() - t,
    {
        let cs = to_chars(corpus[t]);
        let mut k: usize = 0;
        let ghost before = all@;
        while k < cs.len()
            invariant
                k <= cs@.len(),
                all@ == before + cs@.take(k as int),
            decreases cs.len() - k,
        {
            all.push(cs[k]);
            assert(all@ =~= before + cs@.take(k + 1));
            k += 1;
        }
        proof {
            assert(cs@.take(cs@.len() as int) =~= cs@);
            assert(texts.take(t + 1).drop_last() =~= texts.take(t as int));
            assert(texts.take(t + 1).last() == corpus@[t as int]@);
        }
        t += 1;
    }
    assert(texts.take(corpus@.len() as int) =~= texts);
    all
}

/// Each distinct character of `all` with its number of occurrences, in
/// order of first occurrence.
fn count_chars(all: &Vec<char>) -> (freq: Vec<(char, usize)>)
    ensures
        forall|p: int|
            0 <= p < freq@.len() ==> (#[trigger] freq@[p]).1 == occurrences(all@, freq@[p].0),
        forall|p: int| 0 <= p < freq@.len() ==> all@.contains((#[trigger] freq@[p]).0),
        forall|p: int, q: int|
            0 <= p < q < freq@.len() ==> (#[trigger] freq@[p]).0 != (#[trigger] freq@[q]).0,
        forall|c: char| all@.contains(c) ==> exists|p: int| 0 <= p < freq@.len() && (#[trigger] freq@[p]).0 == c,
{
    let mut freq: Vec<(char, usize)> = Vec::new();
    let mut i: usize = 0;
    while i < all.len()
        invariant
            i <= all@.len(),
            forall|p: int|
                0 <= p < freq@.len() ==> (#[trigger] freq@[p]).1 == occurrences(
                    all@.take(i as int),
                    freq@[p].0,
                ),
            forall|p: int| 0 <= p < freq@.len() ==> all@.take(i as int).contains((#[trigger] freq@[p]).0),
            forall|p: int, q: int|
                0 <= p < q < freq@.len() ==> (#[trigger] freq@[p]).0 != (#[trigger] freq@[q]).0,
            forall|k: int|
                #![trigger all@[k]]
                0 <= k < i ==> exists|p: int| 0 <= p < freq@.len() && (#[trigger] freq@[p]).0 == all@[k],
        decreases all.len() - i,
    {
        let c = all[i];
        let ghost pre = all@.take(i as int);
        assert(all@.take(i + 1) =~= pre.push(c));
        let mut p: usize = 0;
        while p < freq.len() && freq[p].0 != c
            invariant
                p <= freq@.len(),
                forall|r: int| 0 <= r < p ==> freq@[r].0 != c,
            decreases freq.len() - p,
        {
            p += 1;
        }
        proof {
            assert forall|d: char| #![auto] occurrences(all@.take(i + 1), d) == occurrences(pre, d) + if c == d {
                1nat
            } else {
                0nat
            } by {
                lemma_occurrences_push(pre, c, d);
            }
            lemma_occurrences_contains(pre, c);
        }
        let ghost old_freq = freq@;
        if p < freq.len() {
            let n = freq[p].1;
            proof {
                lemma_occurrences_contains(pre, c);
                assert(n == occurrences(pre, c));
            }
            freq.set(p, (c, n + 1));
        } else {
            freq.push((c, 1));
            proof {
                assert(!pre.contains(c)) by {
                    if pre.contains(c) {
                        let k = choose|k: int| 0 <= k < pre.len() && pre[k] == c;
                        assert(all@[k] == c);
                        let q = choose|q: int| 0 <= q < old_freq.len() && (#[trigger] old_freq[q]).0 == all@[k];
                        assert(old_freq[q].0 != c);
                    }
                }
                lemma_occurrences_contains(pre, c);
            }
        }
        proof {
            let post = all@.take(i + 1);
            assert forall|q: int| 0 <= q < freq@.len() implies post.contains((#[trigger] freq@[q]).0) by {
                if freq@[q].0 == c {
                    assert(post[i as int] == c);
                } else {
                    assert(freq@[q] == old_freq[q]);
                    let k = choose|k: int| 0 <= k < pre.len() && pre[k] == freq@[q].0;
                    assert(post[k] == pre[k]);
                }
            }
            assert forall|k: int| #![trigger all@[k]] 0 <= k < i + 1 implies exists|q: int|
                0 <= q < freq@.len() && (#[trigger] freq@[q]).0 == all@[k] by {
                if k == i {
                    assert(freq@[p as int].0 == c);
                } else {
                    let q = choose|q: int| 0 <= q < old_freq.len() && (#[trigger] old_freq[q]).0 == all@[k];
                    assert(freq@[q].0 == old_freq[q].0);
                }
            }
        }
        i += 1;
    }
    proof {
        assert(all@.take(all@.len() as int) =~= all@);
        assert forall|c: char| all@.contains(c) implies exists|p: int|
            0 <= p < freq@.len() && (#[trigger] freq@[p]).0 == c by {
            let k = choose|k: int| 0 <= k < all@.len() && all@[k] == c;
            let q = choose|q: int| 0 <= q < freq@.len() && (#[trigger] freq@[q]).0 == all@[k];
        }
    }
    freq
}

/// The entries ordered by non-increasing count (a stable insertion sort:
/// entries of equal count keep their order).
fn rank_by_count(freq: &Vec<(char, usize)>) -> (res: (Vec<(char, usize)>, Ghost<Seq<int>>, Ghost<Seq<int>>))
    requires
        forall|p: int, q: int|
            0 <= p < q < freq@.len() ==> (#[trigger] freq@[p]).0 != (#[trigger] freq@[q]).0,
    ensures
        res.0@.len() == freq@.len(),
        forall|a: int, b: int|
            0 <= a < b < res.0@.len() ==> (#[trigger] res.0@[a]).1 >= (#[trigger] res.0@[b]).1,
        forall|a: int, b: int|
            0 <= a < b < res.0@.len() ==> (#[trigger] res.0@[a]).0 != (#[trigger] res.0@[b]).0,
        forall|a: int|
            0 <= a < res.0@.len() ==> 0 <= #[trigger] res.1@[a] < freq@.len() && freq@[res.1@[a]]
                == res.0@[a],
        forall|p: int|
            0 <= p < freq@.len() ==> 0 <= #[trigger] res.2@[p] < res.0@.len() && res.0@[res.2@[p]]
                == freq@[p],
{
    let mut sorted: Vec<(char, usize)> = Vec::new();
    let ghost mut src: Seq<int> = seq![];
    let ghost mut at: Seq<int> = seq![];
    let mut q: usize = 0;
    while q < freq.len()
        invariant
            q <= freq@.len(),
            forall|p: int, r: int|
                0 <= p < r < freq@.len() ==> (#[trigger] freq@[p]).0 != (#[trigger] freq@[r]).0,
            sorted@.len() == q,
            src.len() == q,
            at.len() == q,
            forall|a: int, b: int|
                0 <= a < b < sorted@.len() ==> (#[trigger] sorted@[a]).1 >= (#[trigger] sorted@[b]).1,
            forall|a: int, b: int|
                0 <= a < b < sorted@.len() ==> (#[trigger] sorted@[a]).0 != (#[trigger] sorted@[b]).0,
            forall|a: int| 0 <= a < q ==> 0 <= #[trigger] src[a] < q && freq@[src[a]] == sorted@[a],
            forall|p: int| 0 <= p < q ==> 0 <= #[trigger] at[p] < q && sorted@[at[p]] == freq@[p],
        decreases freq.len() - q,
    {
        let x = freq[q];
        let mut pos: usize = 0;
        while pos < sorted.len() && sorted[pos].1 >= x.1
            invariant
                pos <= sorted@.len(),
                forall|a: int| 0 <= a < pos ==> (#[trigger] sorted@[a]).1 >= x.1,
            decreases sorted.len() - pos,
        {
            pos += 1;
        }
        let ghost old_s = sorted@;
        proof {
            assert forall|a: int| pos <= a < old_s.len() implies (#[trigger] old_s[a]).1 < x.1 by {
                if a > pos {
                    assert(old_s[pos as int].1 >= old_s[a].1);
                }
            }
            assert forall|a: int| 0 <= a < old_s.len() implies (#[trigger] old_s[a]).0 != x.0 by {
                assert(freq@[src[a]] == old_s[a]);
                assert(freq@[src[a]].0 != freq@[q as int].0);
            }
        }
        sorted.insert(pos, x);
        proof {
            lemma_insert_ranked(old_s, pos as int, x);
            old_s.insert_ensures(pos as int, x);
            let old_src = src;
            let old_at = at;
            src = old_src.insert(pos as int, q as int);
            old_src.insert_ensures(pos as int, q as int);
            at = Seq::new(
                (q + 1) as nat,
                |p: int|
                    if p == q {
                        pos as int
                    } else if old_at[p] >= pos {
                        old_at[p] + 1
                    } else {
                        old_at[p]
                    },
            );
            assert forall|a: int| 0 <= a < q + 1 implies 0 <= #[trigger] src[a] < q + 1 && freq@[src[a]]
                == sorted@[a] by {
                if a < pos {
                    assert(src[a] == old_src[a]);
                    assert(sorted@[a] == old_s[a]);
                } else if a > pos {
                    assert(src[a] == old_src[a - 1]);
                    assert(sorted@[a] == old_s[a - 1]);
                }
            }
            assert forall|p: int| 0 <= p < q + 1 implies 0 <= #[trigger] at[p] < q + 1 && sorted@[at[p]]
                == freq@[p] by {
                if p < q {
                    let b = old_at[p];
                    assert(old_s[b] == freq@[p]);
                    if b >= pos {
                        assert(sorted@[b + 1] == old_s[b]);
                    } else {
                        assert(sorted@[b] == old_s[b]);
                    }
                }
            }
        }
        q += 1;
    }
    (sorted, Ghost(src), Ghost(at))
}

/// Inserting `x` into a count-ranked sequence at the first position whose
/// count is below `x`'s keeps it ranked, and keeps characters distinct when
/// `x`'s character is new.
proof fn lemma_insert_ranked(s: Seq<(char, usize)>, pos: int, x: (char, usize))
    requires
        0 <= pos <= s.len(),
        forall|a: int, b: int| 0 <= a < b < s.len() ==> (#[trigger] s[a]).1 >= (#[trigger] s[b]).1,
        forall|a: int, b: int| 0 <= a < b < s.len() ==> (#[trigger] s[a]).0 != (#[trigger] s[b]).0,
        forall|a: int| 0 <= a < pos ==> (#[trigger] s[a]).1 >= x.1,
        forall|a: int| pos <= a < s.len() ==> (#[trigger] s[a]).1 < x.1,
        forall|a: int| 0 <= a < s.len() ==> (#[trigger] s[a]).0 != x.0,
    ensures
        forall|a: int, b: int|
            0 <= a < b < s.insert(pos, x).len() ==> (#[trigger] s.insert(pos, x)[a]).1 >= (
            #[trigger] s.insert(pos, x)[b]).1,
        forall|a: int, b: int|
            0 <= a < b < s.insert(pos, x).len() ==> (#[trigger] s.insert(pos, x)[a]).0 != (
            #[trigger] s.insert(pos, x)[b]).0,
{
    s.insert_ensures(pos, x);
    let ns = s.insert(pos, x);
    assert forall|a: int, b: int| 0 <= a < b < ns.len() implies (#[trigger] ns[a]).1 >= (
    #[trigger] ns[b]).1 && ns[a].0 != ns[b].0 by {
        if b < pos {
            assert(ns[a] == s[a] && ns[b] == s[b]);
        } else if b == pos {
            assert(ns[a] == s[a]);
        } else if a < pos {
            assert(ns[a] == s[a] && ns[b] == s[b - 1]);
        } else if a == pos {
            assert(ns[b] == s[b - 1]);
        } else {
            assert(ns[a] == s[a - 1] && ns[b] == s[b - 1]);
        }
    }
}

/// The characters of ranked entries.
pub open spec fn entry_chars(e: Seq<(char, usize)>) -> Seq<char> {
    e.map_values(|x: (char, usize)| x.0)
}

/// Builds a tokenizer from a corpus: the four special tokens with ids 0 to
/// 3, then the corpus's characters by decreasing frequency, numbered from
/// 4 while ids stay below `target_vocab`.  No merge rules are learned.
pub fn train_bpe_demo(corpus: &[&str], target_vocab: usize) -> (r: BPETokenizer)
    ensures
        r.wf(),
        r.merges_view().len() == 0,
        r.unk_view() == 1,
        exists|chosen: Seq<char>|
            ranked_by_frequency(corpus_chars(str_views(corpus@)), chosen, char_slots(target_vocab))
                && #[trigger] map_of(trained_pairs(chosen)) == r.vocab_view(),
{
    let all = gather_chars(corpus);
    let freq = count_chars(&all);
    let (sorted, Ghost(src), Ghost(at)) = rank_by_count(&freq);
    let mut vocab = special_vocab();
    let ghost base = vocab.pairs();
    let mut id: usize = 4;
    let mut j: usize = 0;
    while j < sorted.len() && id < target_vocab
        invariant
            id == 4 + j,
            j <= sorted@.len(),
            j > 0 ==> id <= target_vocab,
            vocab.wf(),
            base == numbered(mini_special_tokens(), 0),
            vocab.pairs() == base + numbered(
                entry_chars(sorted@.take(j as int)).map_values(|c: char| seq![c]),
                4,
            ),
            forall|a: int, b: int|
                0 <= a < b < sorted@.len() ==> (#[trigger] sorted@[a]).0 != (#[trigger] sorted@[b]).0,
        decreases sorted.len() - j,
    {
        let c = sorted[j].0;
        let s = char_string(c);
        proof {
            lemma_mini_specials();
            let p = vocab.pairs();
            lemma_map_of_contains(p, s@);
            assert forall|e: int| 0 <= e < p.len() implies p[e].0 != s@ by {
                if e < 4 {
                    assert(p[e].0 == mini_special_tokens()[e]);
                    assert(p[e].0.len() == 5);
                } else {
                    assert(p[e].0 == seq![sorted@[e - 4].0]);
                    assert(p[e].0[0] != s@[0]);
                }
            }
        }
        vocab.insert(s, id);
        proof {
            assert(entry_chars(sorted@.take(j + 1)).map_values(|c: char| seq![c]) =~= entry_chars(
                sorted@.take(j as int),
            ).map_values(|c: char| seq![c]).push(seq![c]));
            assert(vocab.pairs() =~= base + numbered(
                entry_chars(sorted@.take(j + 1)).map_values(|c: char| seq![c]),
                4,
            ));
        }
        id += 1;
        j += 1;
    }
    let ghost all_s = all@;
    let ghost chosen = entry_chars(sorted@.take(j as int));
    proof {
        let slots = char_slots(target_vocab);
        assert(j as nat <= slots);
        assert(j < sorted@.len() ==> j as nat == slots);
        assert forall|i1: int, i2: int| 0 <= i1 < chosen.len() && 0 <= i2 < chosen.len() && i1 != i2
            implies chosen[i1] != chosen[i2] by {
            if i1 < i2 {
                assert(sorted@[i1].0 != sorted@[i2].0);
            } else {
                assert(sorted@[i2].0 != sorted@[i1].0);
            }
        }
        assert forall|a: int| 0 <= a < chosen.len() implies all_s.contains(#[trigger] chosen[a])
            && occurrences(all_s, chosen[a]) == sorted@[a].1 by {
            assert(freq@[src[a]] == sorted@[a]);
        }
        assert forall|i1: int, i2: int| 0 <= i1 < i2 < chosen.len() implies occurrences(
            all_s,
            #[trigger] chosen[i1],
        ) >= occurrences(all_s, #[trigger] chosen[i2]) by {
            assert(sorted@[i1].1 >= sorted@[i2].1);
        }
        assert forall|ch: char, a: int|
            #![trigger chosen[a], all_s.contains(ch)]
            0 <= a < chosen.len() && all_s.contains(ch) && !chosen.contains(ch) implies occurrences(
                all_s,
                chosen[a],
            ) >= occurrences(all_s, ch) by {
            let p = choose|p: int| 0 <= p < freq@.len() && (#[trigger] freq@[p]).0 == ch;
            let b = at[p];
            assert(sorted@[b] == freq@[p]);
            if b < j {
                assert(chosen[b] == ch);
            }
            assert(sorted@[a].1 >= sorted@[b].1);
        }
        assert forall|ch: char| all_s.contains(ch) && chosen.len() < slots implies chosen.contains(ch) by {
            let p = choose|p: int| 0 <= p < freq@.len() && (#[trigger] freq@[p]).0 == ch;
            let b = at[p];
            assert(sorted@[b] == freq@[p]);
            assert(chosen[b] == ch);
        }
        assert(ranked_by_frequency(all_s, chosen, slots));
        assert(vocab.pairs() =~= trained_pairs(chosen));
        lemma_mini_specials();
        crate::strmap::lemma_map_of_value(vocab.pairs(), 1);
        assert(vocab.pairs()[1].0 == "<unk>"@);
    }
    BPETokenizer::new(vocab, Vec::new())
}

// ----------------------------------------------------------------------
// Decoding what was encoded
// ----------------------------------------------------------------------

/// Ids numbered by position map back to one token each.
proof fn lemma_numbered_ids_distinct(pairs: Seq<(Seq<char>, usize)>)
    requires
        crate::strmap::distinct_keys(pairs),
        forall|i: int, j: int| 0 <= i < j < pairs.len() ==> (#[trigger] pairs[i]).1 != (#[trigger] pairs[j]).1,
    ensures
        ids_distinct(map_of(pairs)),
{
    let m = map_of(pairs);
    assert forall|k1: Seq<char>, k2: Seq<char>|
        m.contains_key(k1) && m.contains_key(k2) && #[trigger] m[k1] == #[trigger] m[k2] implies k1 == k2 by {
        lemma_map_of_contains(pairs, k1);
        lemma_map_of_contains(pairs, k2);
        let i1 = choose|i: int| 0 <= i < pairs.len() && pairs[i].0 == k1;
        let i2 = choose|i: int| 0 <= i < pairs.len() && pairs[i].0 == k2;
        crate::strmap::lemma_map_of_value(pairs, i1);
        crate::strmap::lemma_map_of_value(pairs, i2);
        if i1 < i2 {
            assert(pairs[i1].1 != pairs[i2].1);
        } else if i2 < i1 {
            assert(pairs[i2].1 != pairs[i1].1);
        }
    }
}

/// The entries of a character-level vocabulary: keys are distinct, each
/// entry's id is its position, and the character `c` is at position
/// `4 + (c - 32)`.
/// The character-level vocabulary: distinct tokens, each numbered by its
/// position; the four special tokens, then the characters from the space on.
pub proof fn lemma_char_level_pairs(vocab_size: usize)
    ensures
        crate::strmap::distinct_keys(char_level_pairs(vocab_size)),
        forall|i: int| 0 <= i < char_level_pairs(vocab_size).len() ==> (#[trigger] char_level_pairs(vocab_size)[i]).1 == i,
        char_level_pairs(vocab_size).len() == 4 + char_level_count(vocab_size),
        forall|j: int|
            0 <= j < char_level_count(vocab_size) ==> (#[trigger] char_level_pairs(vocab_size)[4 + j]).0
                == seq![(32 + j) as char],
{
    lemma_mini_specials();
    let p = char_level_pairs(vocab_size);
    let n = char_level_count(vocab_size);
    assert forall|i: int| 0 <= i < p.len() implies (#[trigger] p[i]).1 == i by {
        if i < 4 {
            assert(p[i] == numbered(mini_special_tokens(), 0)[i]);
        } else {
            assert(p[i] == numbered(ascii_char_tokens(n), 4)[i - 4]);
        }
    }
    assert forall|j: int| 0 <= j < n implies (#[trigger] p[4 + j]).0 == seq![(32 + j) as char] by {
        assert(p[4 + j] == numbered(ascii_char_tokens(n), 4)[j]);
    }
    assert forall|a: int, b: int| 0 <= a < b < p.len() implies p[a].0 != p[b].0 by {
        if b < 4 {
            assert(p[a].0 == mini_special_tokens()[a] && p[b].0 == mini_special_tokens()[b]);
        } else if a < 4 {
            assert(p[a].0 == mini_special_tokens()[a]);
            assert(p[b].0 == seq![(32 + (b - 4)) as char]);
            assert(p[a].0.len() == 5);
        } else {
            assert(p[a].0 == seq![(32 + (a - 4)) as char]);
            assert(p[b].0 == seq![(32 + (b - 4)) as char]);
            assert(p[a].0[0] != p[b].0[0]);
        }
    }
}

proof fn lemma_decode_chars(rev: Map<usize, Seq<char>>, ids: Seq<usize>, text: Seq<char>)
    requires
        ids.len() == text.len(),
        forall|i: int| 0 <= i < ids.len() ==> rev.contains_key(#[trigger] ids[i]) && rev[ids[i]] == seq![text[i]],
    ensures
        decode_with(rev, ids) == text,
    decreases ids.len(),
{
    if ids.len() > 0 {
        let n = ids.len() - 1;
        assert forall|i: int| 0 <= i < ids.drop_last().len() implies rev.contains_key(#[trigger] ids.drop_last()[i])
            && rev[ids.drop_last()[i]] == seq![text.drop_last()[i]] by {
            assert(ids.drop_last()[i] == ids[i]);
        }
        lemma_decode_chars(rev, ids.drop_last(), text.drop_last());
        assert(rev[ids[n]] == seq![text[n]]);
        assert(text.drop_last() + seq![text[n]] =~= text);
    }
}

/// A character-level tokenizer decodes the encoding of a text made of its
/// characters back to that text.
pub proof fn lemma_char_level_round_trip(t: BPETokenizer, vocab_size: usize, text: Seq<char>)
    requires
        t.wf(),
        t.vocab_view() == map_of(char_level_pairs(vocab_size)),
        t.merges_view().len() == 0,
        forall|i: int|
            0 <= i < text.len() ==> 32 <= (#[trigger] text[i] as u32) < 32 + char_level_count(vocab_size),
    ensures
        decode_with(t.reverse_view(), t.encode_spec(text)) == text,
{
    let pairs = char_level_pairs(vocab_size);
    let vocab = t.vocab_view();
    lemma_char_level_pairs(vocab_size);
    assert forall|i: int, j: int| 0 <= i < j < pairs.len() implies (#[trigger] pairs[i]).1 != (#[trigger] pairs[j]).1 by {
    }
    lemma_numbered_ids_distinct(pairs);
    assert(t.merges_view() =~= Seq::<(Seq<char>, Seq<char>)>::empty());
    let toks = char_tokens(text);
    assert(apply_merges(toks, t.merges_view()) == toks);
    let ids = t.encode_spec(text);
    assert forall|i: int| 0 <= i < ids.len() implies t.reverse_view().contains_key(#[trigger] ids[i])
        && t.reverse_view()[ids[i]] == seq![text[i]] by {
        let c = text[i];
        let j = (c as u32) - 32;
        assert(pairs[4 + j].0 == seq![(32 + j) as char]);
        vstd::utf8::char_u32_cast(c, c as u32);
        assert(((32 + j) as u32) as char == c);
        assert(pairs[4 + j].0 == seq![c]);
        crate::strmap::lemma_map_of_value(pairs, 4 + j);
        assert(toks[i] == seq![c]);
        assert(vocab.contains_key(seq![c]) && vocab[seq![c]] == 4 + j);
        assert(ids[i] == vocab[seq![c]]);
        crate::mini::vocab::lemma_reverse_exact(t.reverse_view(), vocab, seq![c]);
    }
    lemma_decode_chars(t.reverse_view(), ids, text);
}

/// In a tokenizer over the character-level vocabulary, each id below the
/// vocabulary's size decodes to its token, and every other id to `<unk>`.
pub proof fn lemma_char_level_reverse(t: BPETokenizer, vocab_size: usize, id: usize)
    requires
        t.wf(),
        t.vocab_view() == map_of(char_level_pairs(vocab_size)),
    ensures
        id < char_level_pairs(vocab_size).len() ==> t.reverse_view().contains_key(id)
            && t.reverse_view()[id] == char_level_pairs(vocab_size)[id as int].0,
        id >= char_level_pairs(vocab_size).len() ==> !t.reverse_view().contains_key(id),
{
    let p = char_level_pairs(vocab_size);
    let v = t.vocab_view();
    lemma_char_level_pairs(vocab_size);
    t.lemma_reverse();
    if id < p.len() {
        let k = p[id as int].0;
        crate::strmap::lemma_map_of_value(p, id as int);
        assert forall|k1: Seq<char>, k2: Seq<char>|
            v.contains_key(k1) && v.contains_key(k2) && #[trigger] v[k1] == #[trigger] v[k2] implies k1 == k2 by {
            lemma_map_of_contains(p, k1);
            lemma_map_of_contains(p, k2);
            let i1 = choose|i: int| 0 <= i < p.len() && p[i].0 == k1;
            let i2 = choose|i: int| 0 <= i < p.len() && p[i].0 == k2;
            crate::strmap::lemma_map_of_value(p, i1);
            crate::strmap::lemma_map_of_value(p, i2);
        }
        crate::mini::vocab::lemma_reverse_exact(t.reverse_view(), v, k);
    } else {
        if t.reverse_view().contains_key(id) {
            let k = choose|k: Seq<char>| v.contains_key(k) && #[trigger] v[k] == id;
            lemma_map_of_contains(p, k);
            let i = choose|i: int| 0 <= i < p.len() && p[i].0 == k;
            crate::strmap::lemma_map_of_value(p, i);
        }
    }
}

} // verus!
