//! Vocabularies of the teaching tokenizers: a string-keyed map to ids and
//! its reverse, an id-keyed map back to tokens.
use vstd::prelude::*;
use std::collections::HashMap;
use crate::strmap::{StrMap, lemma_map_of_contains, lemma_map_of_value};

verus! {

broadcast use vstd::std_specs::hash::group_hash_axioms;

/// The tokens of an id-keyed map, by their characters.
pub open spec fn rev_view(m: Map<usize, String>) -> Map<usize, Seq<char>> {
    m.map_values(|s: String| s@)
}

/// `rev` maps exactly the ids that `vocab` uses, each to a token that
/// `vocab` maps to that id.  Which token, when several share an id, is
/// left open.
pub open spec fn is_reverse_of(rev: Map<usize, Seq<char>>, vocab: Map<Seq<char>, usize>) -> bool {
    &&& forall|id: usize|
        #[trigger] rev.contains_key(id) <==> exists|k: Seq<char>|
            vocab.contains_key(k) && #[trigger] vocab[k] == id
    &&& forall|id: usize|
        #[trigger] rev.contains_key(id) ==> vocab.contains_key(rev[id]) && vocab[rev[id]] == id
}

/// With no two tokens sharing an id, the reverse is determined: each id
/// maps back to its token.
pub open spec fn ids_distinct(vocab: Map<Seq<char>, usize>) -> bool {
    forall|k1: Seq<char>, k2: Seq<char>|
        vocab.contains_key(k1) && vocab.contains_key(k2) && #[trigger] vocab[k1] == #[trigger] vocab[k2]
            ==> k1 == k2
}

/// The reverse of a vocabulary.
pub fn reverse_vocab(vocab: &StrMap) -> (r: HashMap<usize, String>)
    requires
        vocab.wf(),
    ensures
        is_reverse_of(rev_view(r@), vocab@),
{
    let mut rev: HashMap<usize, String> = HashMap::new();
    let n = vocab.entry_count();
    let ghost pairs = vocab.pairs();
    let mut e: usize = 0;
    while e < n
        invariant
            pairs == vocab.pairs(),
            n == pairs.len(),
            e <= n,
            vocab.wf(),
            forall|id: usize|
                #[trigger] rev@.contains_key(id) <==> exists|j: int| 0 <= j < e && pairs[j].1 == id,
            forall|id: usize|
                #[trigger] rev@.contains_key(id) ==> exists|j: int|
                    0 <= j < e && pairs[j].1 == id && pairs[j].0 == rev@[id]@,
        decreases n - e,
    {
        let k = vocab.key_at(e).clone();
        let v = vocab.value_at(e);
        let ghost old_rev = rev@;
        rev.insert(v, k);
        proof {
            assert forall|id: usize| #[trigger] rev@.contains_key(id) implies exists|j: int|
                0 <= j < e + 1 && pairs[j].1 == id && pairs[j].0 == rev@[id]@ by {
                if id == v {
                    assert(pairs[e as int].1 == id && pairs[e as int].0 == rev@[id]@);
                } else {
                    assert(old_rev.contains_key(id));
                }
            }
            assert forall|id: usize| (exists|j: int| 0 <= j < e + 1 && pairs[j].1 == id) implies #[trigger] rev@.contains_key(id) by {
                if id != v {
                    let j = choose|j: int| 0 <= j < e + 1 && pairs[j].1 == id;
                    assert(j < e);
                    assert(old_rev.contains_key(id));
                }
            }
        }
        e += 1;
    }
    proof {
        let m = vocab@;
        let rv = rev_view(rev@);
        assert forall|id: usize| #[trigger] rv.contains_key(id) implies m.contains_key(rv[id]) && m[rv[id]] == id by {
            let j = choose|j: int| 0 <= j < n && pairs[j].1 == id && pairs[j].0 == rev@[id]@;
            lemma_map_of_value(pairs, j);
        }
        assert forall|id: usize| (exists|k: Seq<char>| m.contains_key(k) && #[trigger] m[k] == id) implies #[trigger] rv.contains_key(id) by {
            let k = choose|k: Seq<char>| m.contains_key(k) && #[trigger] m[k] == id;
            lemma_map_of_contains(pairs, k);
            let j = choose|j: int| 0 <= j < pairs.len() && pairs[j].0 == k;
            lemma_map_of_value(pairs, j);
            assert(pairs[j].1 == id);
        }
        assert forall|id: usize| #[trigger] rv.contains_key(id) implies exists|k: Seq<char>|
            m.contains_key(k) && #[trigger] m[k] == id by {
            let j = choose|j: int| 0 <= j < n && pairs[j].1 == id && pairs[j].0 == rev@[id]@;
            lemma_map_of_value(pairs, j);
            assert(m.contains_key(pairs[j].0) && m[pairs[j].0] == id);
        }
    }
    rev
}

/// With ids not shared, the reverse maps each token's id back to it.
pub proof fn lemma_reverse_exact(rev: Map<usize, Seq<char>>, vocab: Map<Seq<char>, usize>, k: Seq<char>)
    requires
        is_reverse_of(rev, vocab),
        ids_distinct(vocab),
        vocab.contains_key(k),
    ensures
        rev.contains_key(vocab[k]),
        rev[vocab[k]] == k,
{
    let id = vocab[k];
    assert(rev.contains_key(id));
    let k2 = rev[id];
    assert(vocab.contains_key(k2) && vocab[k2] == id);
}

} // verus!
