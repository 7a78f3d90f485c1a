//! A map from strings to indices, kept as an association list in insertion
//! order.  Its view is a `Map<Seq<char>, usize>`; inserting an existing key
//! replaces its value in place, as `HashMap::insert` does.
use vstd::prelude::*;
use crate::text::str_eq;

verus! {

/// The map denoted by a list of (key, value) pairs; later pairs win.
pub open spec fn map_of(pairs: Seq<(Seq<char>, usize)>) -> Map<Seq<char>, usize>
    decreases pairs.len(),
{
    if pairs.len() == 0 {
        Map::empty()
    } else {
        map_of(pairs.drop_last()).insert(pairs.last().0, pairs.last().1)
    }
}

/// `tokens[i]` numbered `first + i`.
pub open spec fn numbered(tokens: Seq<Seq<char>>, first: int) -> Seq<(Seq<char>, usize)> {
    Seq::new(tokens.len(), |i: int| (tokens[i], (first + i) as usize))
}

/// No key occurs twice.
pub open spec fn distinct_keys(pairs: Seq<(Seq<char>, usize)>) -> bool {
    forall|i: int, j: int| 0 <= i < j < pairs.len() ==> pairs[i].0 != pairs[j].0
}

/// A key is in the map exactly when some pair carries it.
pub proof fn lemma_map_of_contains(pairs: Seq<(Seq<char>, usize)>, k: Seq<char>)
    ensures
        map_of(pairs).contains_key(k) <==> exists|i: int| 0 <= i < pairs.len() && pairs[i].0 == k,
    decreases pairs.len(),
{
    if pairs.len() > 0 {
        lemma_map_of_contains(pairs.drop_last(), k);
        if map_of(pairs.drop_last()).contains_key(k) {
            let i = choose|i: int| 0 <= i < pairs.drop_last().len() && pairs.drop_last()[i].0 == k;
            assert(pairs[i].0 == k);
        }
        if exists|i: int| 0 <= i < pairs.len() && pairs[i].0 == k {
            let i = choose|i: int| 0 <= i < pairs.len() && pairs[i].0 == k;
            if i < pairs.len() - 1 {
                assert(pairs.drop_last()[i].0 == k);
            }
        }
    }
}

/// With distinct keys, the map gives each pair's value for its key.
pub proof fn lemma_map_of_value(pairs: Seq<(Seq<char>, usize)>, i: int)
    requires
        distinct_keys(pairs),
        0 <= i < pairs.len(),
    ensures
        map_of(pairs).contains_key(pairs[i].0),
        map_of(pairs)[pairs[i].0] == pairs[i].1,
    decreases pairs.len(),
{
    if i < pairs.len() - 1 {
        assert(pairs.drop_last()[i] == pairs[i]);
        lemma_map_of_value(pairs.drop_last(), i);
        assert(pairs[i].0 != pairs.last().0);
    }
}

/// With distinct keys, the map has as many keys as there are pairs.
pub proof fn lemma_map_of_len(pairs: Seq<(Seq<char>, usize)>)
    requires
        distinct_keys(pairs),
    ensures
        map_of(pairs).dom().finite(),
        map_of(pairs).len() == pairs.len(),
    decreases pairs.len(),
{
    if pairs.len() > 0 {
        let p = pairs.drop_last();
        assert(distinct_keys(p));
        lemma_map_of_len(p);
        lemma_map_of_contains(p, pairs.last().0);
        if map_of(p).contains_key(pairs.last().0) {
            let i = choose|i: int| 0 <= i < p.len() && p[i].0 == pairs.last().0;
            assert(pairs[i].0 == pairs[pairs.len() - 1].0);
        }
    }
}

/// String-keyed map with insertion-ordered entries.
pub struct StrMap {
    entries: Vec<(String, usize)>,
}

impl StrMap {
    /// The entries as (key view, value) pairs, in insertion order.
    pub closed spec fn pairs(&self) -> Seq<(Seq<char>, usize)> {
        self.entries@.map_values(|e: (String, usize)| (e.0@, e.1))
    }

    /// Well-formedness: no key is stored twice.
    pub open spec fn wf(&self) -> bool {
        distinct_keys(self.pairs())
    }

    /// The map view.
    pub open spec fn view(&self) -> Map<Seq<char>, usize> {
        map_of(self.pairs())
    }

    /// An empty map.
    pub fn new() -> (r: Self)
        ensures
            r.wf(),
            r@ == Map::<Seq<char>, usize>::empty(),
            r.pairs().len() == 0,
    {
        let r = StrMap { entries: Vec::new() };
        assert(r.pairs() =~= Seq::<(Seq<char>, usize)>::empty());
        r
    }

    /// Number of entries (distinct keys).
    pub fn len(&self) -> (r: usize)
        requires
            self.wf(),
        ensures
            r == self@.len(),
            r == self.pairs().len(),
            self@.dom().finite(),
    {
        proof {
            lemma_map_of_len(self.pairs());
        }
        self.entries.len()
    }

    /// Position of key `k`, if present.
    pub fn position(&self, k: &str) -> (r: Option<usize>)
        requires
            self.wf(),
        ensures
            match r {
                Some(i) => i < self.pairs().len() && self.pairs()[i as int].0 == k@,
                None => !self@.contains_key(k@),
            },
            r is Some <==> self@.contains_key(k@),
    {
        let mut i: usize = 0;
        while i < self.entries.len()
            invariant
                i <= self.entries@.len(),
                self.pairs().len() == self.entries@.len(),
                forall|j: int| 0 <= j < i ==> self.pairs()[j].0 != k@,
            decreases self.entries.len() - i,
        {
            assert(self.pairs()[i as int].0 == self.entries@[i as int].0@);
            if str_eq(self.entries[i].0.as_str(), k) {
                proof {
                    lemma_map_of_contains(self.pairs(), k@);
                }
                return Some(i);
            }
            i += 1;
        }
        proof {
            lemma_map_of_contains(self.pairs(), k@);
        }
        None
    }

    /// The value stored for `k`.
    pub fn get(&self, k: &str) -> (r: Option<usize>)
        requires
            self.wf(),
        ensures
            r == (if self@.contains_key(k@) {
                Some(self@[k@])
            } else {
                None
            }),
    {
        match self.position(k) {
            Some(i) => {
                proof {
                    lemma_map_of_value(self.pairs(), i as int);
                }
                Some(self.entries[i].1)
            },
            None => None,
        }
    }

    /// Whether `k` is a key.
    pub fn contains_key(&self, k: &str) -> (r: bool)
        requires
            self.wf(),
        ensures
            r == self@.contains_key(k@),
    {
        self.position(k).is_some()
    }

    /// Sets the value of `k` (replacing an existing value in place).
    pub fn insert(&mut self, k: String, v: usize)
        requires
            old(self).wf(),
        ensures
            final(self).wf(),
            final(self)@ == old(self)@.insert(k@, v),
            old(self)@.contains_key(k@) ==> exists|i: int|
                0 <= i < old(self).pairs().len() && old(self).pairs()[i].0 == k@
                    && final(self).pairs() == old(self).pairs().update(i, (k@, v)),
            !old(self)@.contains_key(k@) ==> final(self).pairs() == old(self).pairs().push(
                (k@, v),
            ),
    {
        let ghost old_pairs = self.pairs();
        match self.position(k.as_str()) {
            Some(i) => {
                let ghost kv = k@;
                self.entries.set(i, (k, v));
                proof {
                    assert(self.pairs() =~= old_pairs.update(i as int, (kv, v)));
                    assert forall|a: int, b: int|
                        0 <= a < b < self.pairs().len() implies self.pairs()[a].0
                        != self.pairs()[b].0 by {
                        assert(old_pairs[a].0 != old_pairs[b].0);
                    }
                    assert forall|key: Seq<char>|
                        #![auto]
                        self@.contains_key(key) == old(self)@.insert(kv, v).contains_key(key) by {
                        lemma_map_of_contains(self.pairs(), key);
                        lemma_map_of_contains(old_pairs, key);
                        if exists|j: int| 0 <= j < old_pairs.len() && old_pairs[j].0 == key {
                            let j = choose|j: int| 0 <= j < old_pairs.len() && old_pairs[j].0 == key;
                            assert(self.pairs()[j].0 == key);
                        }
                        if exists|j: int| 0 <= j < self.pairs().len() && self.pairs()[j].0 == key {
                            let j = choose|j: int|
                                0 <= j < self.pairs().len() && self.pairs()[j].0 == key;
                            assert(old_pairs[j].0 == key);
                        }
                    }
                    assert forall|key: Seq<char>|
                        #![auto]
                        self@.contains_key(key) implies self@[key] == old(self)@.insert(
                            kv,
                            v,
                        )[key] by {
                        lemma_map_of_contains(self.pairs(), key);
                        let j = choose|j: int|
                            0 <= j < self.pairs().len() && self.pairs()[j].0 == key;
                        lemma_map_of_value(self.pairs(), j);
                        if j != i {
                            lemma_map_of_value(old_pairs, j);
                        }
                    }
                    assert(self@ =~= old(self)@.insert(kv, v));
                }
            },
            None => {
                self.entries.push((k, v));
                proof {
                    assert(self.pairs() =~= old_pairs.push((k@, v)));
                    assert(self.pairs().drop_last() =~= old_pairs);
                    lemma_map_of_contains(old_pairs, k@);
                    assert forall|a: int, b: int|
                        0 <= a < b < self.pairs().len() implies self.pairs()[a].0
                        != self.pairs()[b].0 by {
                        if b == old_pairs.len() {
                            assert(old_pairs[a].0 == self.pairs()[a].0);
                        } else {
                            assert(old_pairs[a].0 != old_pairs[b].0);
                        }
                    }
                }
            },
        }
    }

    /// Key of entry `i` (insertion order).
    pub fn key_at(&self, i: usize) -> (r: &String)
        requires
            i < self.pairs().len(),
        ensures
            r@ == self.pairs()[i as int].0,
    {
        &self.entries[i]
            .0
    }

    /// Value of entry `i` (insertion order).
    pub fn value_at(&self, i: usize) -> (r: usize)
        requires
            i < self.pairs().len(),
        ensures
            r == self.pairs()[i as int].1,
    {
        self.entries[i].1
    }

    /// Number of entries.
    pub fn entry_count(&self) -> (r: usize)
        ensures
            r == self.pairs().len(),
    {
        self.entries.len()
    }
}

} // verus!
