//! Lists of key-value pairs read as finite maps. A list with pairwise
//! distinct keys stands for the map that takes each key to its value.
use vstd::prelude::*;

verus! {

/// No two pairs carry the same key.
pub open spec fn keys_unique<V>(pairs: Seq<(Seq<u8>, V)>) -> bool {
    forall|i: int, j: int|
        0 <= i < j < pairs.len() ==> (#[trigger] pairs[i]).0 != (#[trigger] pairs[j]).0
}

/// Some pair carries the key `k`.
pub open spec fn has_key<V>(pairs: Seq<(Seq<u8>, V)>, k: Seq<u8>) -> bool {
    exists|i: int| 0 <= i < pairs.len() && (#[trigger] pairs[i]).0 == k
}

/// The index of a pair that carries the key `k`.
pub open spec fn index_of_key<V>(pairs: Seq<(Seq<u8>, V)>, k: Seq<u8>) -> int {
    choose|i: int| 0 <= i < pairs.len() && (#[trigger] pairs[i]).0 == k
}

/// The map that a list of pairs stands for.
pub open spec fn pairs_map<V>(pairs: Seq<(Seq<u8>, V)>) -> Map<Seq<u8>, V> {
    Map::new(|k: Seq<u8>| has_key(pairs, k), |k: Seq<u8>| pairs[index_of_key(pairs, k)].1)
}

/// The empty list stands for the empty map.
pub proof fn lemma_no_pairs<V>(pairs: Seq<(Seq<u8>, V)>)
    requires
        pairs.len() == 0,
    ensures
        keys_unique(pairs),
        pairs_map(pairs) == Map::<Seq<u8>, V>::empty(),
{
    assert(pairs_map(pairs) =~= Map::<Seq<u8>, V>::empty());
}

/// With distinct keys, the pair at `i` is the one found under its key.
pub proof fn lemma_index_of_key<V>(pairs: Seq<(Seq<u8>, V)>, i: int)
    requires
        keys_unique(pairs),
        0 <= i < pairs.len(),
    ensures
        has_key(pairs, pairs[i].0),
        index_of_key(pairs, pairs[i].0) == i,
        pairs_map(pairs).dom().contains(pairs[i].0),
        pairs_map(pairs)[pairs[i].0] == pairs[i].1,
{
    let k = pairs[i].0;
    let j = index_of_key(pairs, k);
    assert(0 <= j < pairs.len() && pairs[j].0 == k);
    if j < i {
        assert(pairs[j].0 != pairs[i].0);
    } else if i < j {
        assert(pairs[i].0 != pairs[j].0);
    }
}

/// A key that no pair carries is not in the map.
pub proof fn lemma_absent_key<V>(pairs: Seq<(Seq<u8>, V)>, k: Seq<u8>)
    requires
        forall|j: int| 0 <= j < pairs.len() ==> (#[trigger] pairs[j]).0 != k,
    ensures
        !pairs_map(pairs).dom().contains(k),
{
}

/// Replacing the value of the pair at `i` stores the new value under its
/// key and leaves the other keys as they were.
pub proof fn lemma_replace_pair<V>(before: Seq<(Seq<u8>, V)>, after: Seq<(Seq<u8>, V)>, i: int)
    requires
        keys_unique(before),
        0 <= i < before.len(),
        after.len() == before.len(),
        after[i].0 == before[i].0,
        forall|j: int| 0 <= j < before.len() && j != i ==> after[j] == before[j],
    ensures
        keys_unique(after),
        pairs_map(after) == pairs_map(before).insert(after[i].0, after[i].1),
{
    assert forall|a: int, b: int| 0 <= a < b < after.len() implies (#[trigger] after[a]).0 != (
    #[trigger] after[b]).0 by {
        assert(after[a].0 == before[a].0);
        assert(after[b].0 == before[b].0);
    }
    assert forall|k: Seq<u8>| has_key(after, k) == has_key(before, k) by {
        if has_key(after, k) {
            let j = index_of_key(after, k);
            assert(before[j].0 == k);
        }
        if has_key(before, k) {
            let j = index_of_key(before, k);
            assert(after[j].0 == k);
        }
    }
    let target = pairs_map(before).insert(after[i].0, after[i].1);
    lemma_index_of_key(before, i);
    assert forall|k: Seq<u8>| has_key(after, k) implies #[trigger] pairs_map(after)[k]
        == target[k] by {
        let j = index_of_key(after, k);
        lemma_index_of_key(after, j);
        if j != i {
            assert(before[j] == after[j]);
            lemma_index_of_key(before, j);
        }
    }
    assert(pairs_map(after) =~= target);
}

/// Appending a pair under a fresh key stores its value under that key.
pub proof fn lemma_push_pair<V>(before: Seq<(Seq<u8>, V)>, after: Seq<(Seq<u8>, V)>)
    requires
        keys_unique(before),
        after.len() == before.len() + 1,
        after.drop_last() == before,
        forall|j: int| 0 <= j < before.len() ==> (#[trigger] before[j]).0 != after.last().0,
    ensures
        keys_unique(after),
        pairs_map(after) == pairs_map(before).insert(after.last().0, after.last().1),
{
    let key = after.last().0;
    let val = after.last().1;
    assert forall|j: int| 0 <= j < before.len() implies after[j] == before[j] by {
        assert(after.drop_last()[j] == after[j]);
    }
    assert forall|a: int, b: int| 0 <= a < b < after.len() implies (#[trigger] after[a]).0 != (
    #[trigger] after[b]).0 by {
        assert(after[a] == before[a]);
        if b < before.len() {
            assert(after[b] == before[b]);
        }
    }
    assert forall|k: Seq<u8>| has_key(after, k) == (has_key(before, k) || k == key) by {
        if has_key(after, k) {
            let j = index_of_key(after, k);
            if j < before.len() {
                assert(before[j].0 == k);
            }
        }
        if has_key(before, k) {
            let j = index_of_key(before, k);
            assert(after[j].0 == k);
        }
        if k == key {
            assert(after[before.len() as int].0 == k);
        }
    }
    let target = pairs_map(before).insert(key, val);
    assert forall|k: Seq<u8>| has_key(after, k) implies #[trigger] pairs_map(after)[k]
        == target[k] by {
        let j = index_of_key(after, k);
        lemma_index_of_key(after, j);
        if j < before.len() {
            assert(before[j] == after[j]);
            lemma_index_of_key(before, j);
        }
    }
    assert(pairs_map(after) =~= target);
}

/// With distinct keys, the map has as many keys as the list has pairs.
pub proof fn lemma_pairs_count<V>(pairs: Seq<(Seq<u8>, V)>)
    requires
        keys_unique(pairs),
    ensures
        pairs_map(pairs).dom().finite(),
        pairs_map(pairs).dom().len() == pairs.len(),
    decreases pairs.len(),
{
    if pairs.len() == 0 {
        lemma_no_pairs(pairs);
        assert(pairs_map(pairs).dom() =~= Set::<Seq<u8>>::empty());
    } else {
        let before = pairs.drop_last();
        assert forall|i: int, j: int| 0 <= i < j < before.len() implies (#[trigger] before[i]).0 != (
        #[trigger] before[j]).0 by {
            assert(before[i] == pairs[i]);
            assert(before[j] == pairs[j]);
        }
        assert forall|j: int| 0 <= j < before.len() implies (#[trigger] before[j]).0
            != pairs.last().0 by {
            assert(before[j] == pairs[j]);
        }
        lemma_pairs_count(before);
        lemma_push_pair(before, pairs);
        lemma_absent_key(before, pairs.last().0);
        assert(pairs_map(pairs).dom() =~= pairs_map(before).dom().insert(pairs.last().0));
    }
}

} // verus!
