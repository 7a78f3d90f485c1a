//! Pair merging over a sequence of tokens, the step shared by the BPE
//! tokenizers: every adjacent pair `(a, b)` is replaced by a merged token.
use vstd::prelude::*;
use crate::text::{views, str_eq};

verus! {

/// One left-to-right scan from position `i` with rule `(a, b)`: each
/// adjacent pair equal to `(a, b)` becomes `m`, and the merged token is
/// compared again with its new right neighbour.  The flag tells whether
/// anything was merged.
pub open spec fn pair_scan(w: Seq<Seq<char>>, a: Seq<char>, b: Seq<char>, m: Seq<char>, i: nat) -> (
    Seq<Seq<char>>,
    bool,
)
    decreases w.len() - i,
{
    if i + 1 >= w.len() {
        (w, false)
    } else if w[i as int] == a && w[i + 1int] == b {
        (pair_scan(w.update(i as int, m).remove(i + 1int), a, b, m, i).0, true)
    } else {
        pair_scan(w, a, b, m, i + 1)
    }
}

/// A scan never lengthens the sequence, and one that merges shortens it.
pub proof fn lemma_pair_scan_len(w: Seq<Seq<char>>, a: Seq<char>, b: Seq<char>, m: Seq<char>, i: nat)
    ensures
        pair_scan(w, a, b, m, i).1 ==> pair_scan(w, a, b, m, i).0.len() < w.len(),
        pair_scan(w, a, b, m, i).0.len() <= w.len(),
    decreases w.len() - i,
{
    if i + 1 >= w.len() {
    } else if w[i as int] == a && w[i + 1int] == b {
        lemma_pair_scan_len(w.update(i as int, m).remove(i + 1int), a, b, m, i);
    } else {
        lemma_pair_scan_len(w, a, b, m, i + 1);
    }
}

/// A scan that merges nothing leaves the sequence as it is.
pub proof fn lemma_pair_scan_unchanged(w: Seq<Seq<char>>, a: Seq<char>, b: Seq<char>, m: Seq<char>, i: nat)
    ensures
        !pair_scan(w, a, b, m, i).1 ==> pair_scan(w, a, b, m, i).0 == w,
    decreases w.len() - i,
{
    if i + 1 >= w.len() {
    } else if w[i as int] == a && w[i + 1int] == b {
    } else {
        lemma_pair_scan_unchanged(w, a, b, m, i + 1);
    }
}

/// One scan with rule `(a, b)` merging into `merged`; returns whether it
/// merged anything.
pub fn pair_scan_exec(word: &mut Vec<String>, a: &str, b: &str, merged: &str) -> (changed: bool)
    ensures
        (views(final(word)@), changed) == pair_scan(views(old(word)@), a@, b@, merged@, 0),
{
    let ghost target = pair_scan(views(word@), a@, b@, merged@, 0);
    let mut changed = false;
    let mut i: usize = 0;
    while word.len() > 0 && i < word.len() - 1
        invariant
            pair_scan(views(word@), a@, b@, merged@, i as nat).0 == target.0,
            (pair_scan(views(word@), a@, b@, merged@, i as nat).1 || changed) == target.1,
        decreases word@.len() - i,
    {
        if str_eq(word[i].as_str(), a) && str_eq(word[i + 1].as_str(), b) {
            let ghost before = views(word@);
            word.set(i, merged.to_string());
            word.remove(i + 1);
            proof {
                assert(views(word@) =~= before.update(i as int, merged@).remove(i + 1int));
            }
            changed = true;
        } else {
            i += 1;
        }
    }
    changed
}

} // verus!
