//! Association lists viewed as finite maps.
//!
//! The registry and the field set of a captured record are both stored as
//! vectors of key/value pairs with pairwise-distinct keys; their contracts
//! speak of the `Map` obtained by folding the pairs left to right, a later
//! pair overwriting an earlier one with the same key.

use vstd::prelude::*;

verus! {

/// The map described by a sequence of key/value pairs; a later pair wins
/// over an earlier one with the same key.
pub open spec fn assoc_fold<K, V>(s: Seq<(K, V)>) -> Map<K, V>
    decreases s.len(),
{
    if s.len() == 0 {
        Map::<K, V>::empty()
    } else {
        assoc_fold(s.drop_last()).insert(s.last().0, s.last().1)
    }
}

/// All keys of the pair sequence are pairwise distinct.
pub open spec fn distinct_keys<K, V>(s: Seq<(K, V)>) -> bool {
    forall|i: int, j: int| 0 <= i < j < s.len() ==> s[i].0 != s[j].0
}

/// A key is in the folded map exactly when some pair carries it.
pub proof fn lemma_assoc_fold_dom<K, V>(s: Seq<(K, V)>, k: K)
    ensures
        assoc_fold(s).contains_key(k) <==> exists|i: int| 0 <= i < s.len() && s[i].0 == k,
    decreases s.len(),
{
    if s.len() > 0 {
        lemma_assoc_fold_dom(s.drop_last(), k);
        if s.last().0 == k {
            assert(s[s.len() - 1].0 == k);
        } else if assoc_fold(s).contains_key(k) {
            let i = choose|i: int| 0 <= i < s.drop_last().len() && s.drop_last()[i].0 == k;
            assert(s[i].0 == k);
        } else if exists|i: int| 0 <= i < s.len() && s[i].0 == k {
            let i = choose|i: int| 0 <= i < s.len() && s[i].0 == k;
            assert(s.drop_last()[i].0 == k);
        }
    }
}

/// Appending a pair inserts its binding into the folded map.
pub proof fn lemma_assoc_fold_push<K, V>(s: Seq<(K, V)>, k: K, v: V)
    ensures
        assoc_fold(s.push((k, v))) == assoc_fold(s).insert(k, v),
{
    assert(s.push((k, v)).drop_last() =~= s);
}

/// Overwriting the pair that carries `k` (no later pair carries it again)
/// updates the folded map at `k` alone.
pub proof fn lemma_assoc_fold_update<K, V>(s: Seq<(K, V)>, j: int, k: K, v: V)
    requires
        0 <= j < s.len(),
        s[j].0 == k,
        forall|i: int| j < i < s.len() ==> s[i].0 != k,
    ensures
        assoc_fold(s.update(j, (k, v))) == assoc_fold(s).insert(k, v),
    decreases s.len(),
{
    let t = s.update(j, (k, v));
    if j == s.len() - 1 {
        assert(t.drop_last() =~= s.drop_last());
        assert(assoc_fold(s).insert(s.last().0, v) =~= assoc_fold(s.drop_last()).insert(k, v));
    } else {
        assert(t.drop_last() =~= s.drop_last().update(j, (k, v)));
        lemma_assoc_fold_update(s.drop_last(), j, k, v);
        assert(t.last() == s.last());
        assert(assoc_fold(s.drop_last()).insert(k, v).insert(s.last().0, s.last().1)
            =~= assoc_fold(s.drop_last()).insert(s.last().0, s.last().1).insert(k, v));
    }
}

/// Removing the pair that carries `k` removes `k` from the folded map,
/// provided the keys are distinct.
pub proof fn lemma_assoc_fold_remove<K, V>(s: Seq<(K, V)>, j: int)
    requires
        distinct_keys(s),
        0 <= j < s.len(),
    ensures
        assoc_fold(s.remove(j)) == assoc_fold(s).remove(s[j].0),
    decreases s.len(),
{
    let k = s[j].0;
    if j == s.len() - 1 {
        assert(s.remove(j) =~= s.drop_last());
        lemma_assoc_fold_dom(s.drop_last(), k);
        assert(forall|i: int| 0 <= i < s.drop_last().len() ==> s.drop_last()[i] == s[i]);
        assert(!assoc_fold(s.drop_last()).contains_key(k));
        assert(assoc_fold(s.drop_last()).insert(k, s[j].1).remove(k) =~= assoc_fold(
            s.drop_last(),
        ));
    } else {
        assert(s.remove(j).drop_last() =~= s.drop_last().remove(j));
        assert(forall|i: int| 0 <= i < s.drop_last().len() ==> s.drop_last()[i] == s[i]);
        lemma_assoc_fold_remove(s.drop_last(), j);
        assert(s.remove(j).last() == s.last());
        assert(s.last().0 != k);
        assert(assoc_fold(s.drop_last()).remove(k).insert(s.last().0, s.last().1)
            =~= assoc_fold(s.drop_last()).insert(s.last().0, s.last().1).remove(k));
    }
}

/// In a distinct-keys list the folded map sends each listed key to the
/// value beside it.
pub proof fn lemma_assoc_fold_index<K, V>(s: Seq<(K, V)>, j: int)
    requires
        distinct_keys(s),
        0 <= j < s.len(),
    ensures
        assoc_fold(s).contains_key(s[j].0),
        assoc_fold(s)[s[j].0] == s[j].1,
    decreases s.len(),
{
    if j == s.len() - 1 {
    } else {
        assert(forall|i: int| 0 <= i < s.drop_last().len() ==> s.drop_last()[i] == s[i]);
        lemma_assoc_fold_index(s.drop_last(), j);
        assert(s.last().0 != s[j].0);
    }
}

} // verus!
