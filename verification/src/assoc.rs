//! Association sequences as maps.
//!
//! The registry and the tag sets are stored as vectors of key/value pairs;
//! their mathematical meaning is the map obtained by inserting the pairs in
//! order, so a later pair with the same key wins.

use vstd::prelude::*;

verus! {

/// The map that a pair sequence denotes: pairs are inserted left to right,
/// so for a duplicated key the rightmost pair decides.
pub open spec fn assoc_map<K, V>(ps: Seq<(K, V)>) -> Map<K, V>
    decreases ps.len(),
{
    if ps.len() == 0 {
        Map::empty()
    } else {
        assoc_map(ps.drop_last()).insert(ps.last().0, ps.last().1)
    }
}

/// No pair carries the key: the map has no entry for it.
pub proof fn lemma_assoc_absent<K, V>(ps: Seq<(K, V)>, k: K)
    requires
        forall|j: int| 0 <= j < ps.len() ==> ps[j].0 != k,
    ensures
        !assoc_map(ps).contains_key(k),
    decreases ps.len(),
{
    if ps.len() > 0 {
        lemma_assoc_absent(ps.drop_last(), k);
    }
}

/// The pair at `i` is the last one with its key: it decides the map's entry.
pub proof fn lemma_assoc_last<K, V>(ps: Seq<(K, V)>, i: int)
    requires
        0 <= i < ps.len(),
        forall|j: int| i < j < ps.len() ==> ps[j].0 != ps[i].0,
    ensures
        assoc_map(ps).contains_key(ps[i].0),
        assoc_map(ps)[ps[i].0] == ps[i].1,
    decreases ps.len(),
{
    if i == ps.len() - 1 {
    } else {
        lemma_assoc_last(ps.drop_last(), i);
    }
}

/// Every key of the map comes from some pair.
pub proof fn lemma_assoc_dom<K, V>(ps: Seq<(K, V)>, k: K)
    requires
        assoc_map(ps).contains_key(k),
    ensures
        exists|j: int| 0 <= j < ps.len() && ps[j].0 == k,
    decreases ps.len(),
{
    if ps.len() > 0 && ps.last().0 != k {
        lemma_assoc_dom(ps.drop_last(), k);
        let j = choose|j: int| 0 <= j < ps.drop_last().len() && ps.drop_last()[j].0 == k;
        assert(ps[j].0 == k);
    }
}

/// Appending a pair inserts its entry.
pub proof fn lemma_assoc_push<K, V>(ps: Seq<(K, V)>, k: K, v: V)
    ensures
        assoc_map(ps.push((k, v))) == assoc_map(ps).insert(k, v),
{
    assert(ps.push((k, v)).drop_last() =~= ps);
}

/// With pairwise distinct keys, dropping the pair at `i` removes its entry.
pub proof fn lemma_assoc_remove<K, V>(ps: Seq<(K, V)>, i: int)
    requires
        0 <= i < ps.len(),
        forall|a: int, b: int| 0 <= a < b < ps.len() ==> ps[a].0 != ps[b].0,
    ensures
        assoc_map(ps.remove(i)) =~= assoc_map(ps).remove(ps[i].0),
    decreases ps.len(),
{
    if i == ps.len() - 1 {
        assert(ps.remove(i) =~= ps.drop_last());
        lemma_assoc_absent(ps.drop_last(), ps[i].0);
    } else {
        let q = ps.drop_last();
        lemma_assoc_remove(q, i);
        assert(ps.remove(i).drop_last() =~= q.remove(i));
        assert(ps.remove(i).last() == ps.last());
    }
}

} // verus!
