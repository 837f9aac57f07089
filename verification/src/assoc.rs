use vstd::prelude::*;

verus! {

/// The map that a list of key/value pairs stands for: where a key occurs
/// more than once, its last pair counts.
pub open spec fn assoc_map<K, V>(pairs: Seq<(K, V)>) -> Map<K, V>
    decreases pairs.len(),
{
    if pairs.len() == 0 {
        Map::empty()
    } else {
        assoc_map(pairs.drop_last()).insert(pairs.last().0, pairs.last().1)
    }
}

/// A key that no pair carries is not in the map.
pub proof fn lemma_assoc_absent<K, V>(pairs: Seq<(K, V)>, key: K)
    requires
        forall|j: int| 0 <= j < pairs.len() ==> pairs[j].0 != key,
    ensures
        !assoc_map(pairs).contains_key(key),
    decreases pairs.len(),
{
    if pairs.len() > 0 {
        lemma_assoc_absent(pairs.drop_last(), key);
    }
}

/// The last pair that carries a key gives the key's value.
pub proof fn lemma_assoc_last_match<K, V>(pairs: Seq<(K, V)>, key: K, i: int)
    requires
        0 <= i < pairs.len(),
        pairs[i].0 == key,
        forall|j: int| i < j < pairs.len() ==> pairs[j].0 != key,
    ensures
        assoc_map(pairs).contains_key(key),
        assoc_map(pairs)[key] == pairs[i].1,
    decreases pairs.len(),
{
    if i < pairs.len() - 1 {
        lemma_assoc_last_match(pairs.drop_last(), key, i);
    }
}

/// Replacing the value of the last pair that carries a key is an insertion
/// into the map.
pub proof fn lemma_assoc_update<K, V>(pairs: Seq<(K, V)>, key: K, value: V, i: int)
    requires
        0 <= i < pairs.len(),
        pairs[i].0 == key,
        forall|j: int| i < j < pairs.len() ==> pairs[j].0 != key,
    ensures
        assoc_map(pairs.update(i, (key, value))) == assoc_map(pairs).insert(key, value),
    decreases pairs.len(),
{
    let updated = pairs.update(i, (key, value));
    if i == pairs.len() - 1 {
        assert(updated.drop_last() =~= pairs.drop_last());
        assert(assoc_map(updated) =~= assoc_map(pairs).insert(key, value));
    } else {
        lemma_assoc_update(pairs.drop_last(), key, value, i);
        assert(updated.drop_last() =~= pairs.drop_last().update(i, (key, value)));
        assert(updated.last() == pairs.last());
        assert(assoc_map(updated) =~= assoc_map(pairs).insert(key, value));
    }
}

/// Appending a pair is an insertion into the map.
pub proof fn lemma_assoc_push<K, V>(pairs: Seq<(K, V)>, key: K, value: V)
    ensures
        assoc_map(pairs.push((key, value))) == assoc_map(pairs).insert(key, value),
{
    assert(pairs.push((key, value)).drop_last() =~= pairs);
}

/// A key that some pair carries is in the map.
pub proof fn lemma_assoc_present<K, V>(pairs: Seq<(K, V)>, key: K, i: int)
    requires
        0 <= i < pairs.len(),
        pairs[i].0 == key,
    ensures
        assoc_map(pairs).contains_key(key),
    decreases pairs.len(),
{
    if i < pairs.len() - 1 {
        lemma_assoc_present(pairs.drop_last(), key, i);
    }
}

} // verus!
