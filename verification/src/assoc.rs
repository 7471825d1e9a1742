use vstd::prelude::*;

verus! {

/// The map denoted by a sequence of entries, where `key` extracts each
/// entry's key and a later entry overrides an earlier one with the same key.
pub open spec fn assoc_map<K, T>(s: Seq<T>, key: spec_fn(T) -> K) -> Map<K, T>
    decreases s.len(),
{
    if s.len() == 0 {
        Map::empty()
    } else {
        assoc_map(s.drop_last(), key).insert(key(s.last()), s.last())
    }
}

/// No two entries of the sequence share a key.
pub open spec fn keys_unique<K, T>(s: Seq<T>, key: spec_fn(T) -> K) -> bool {
    forall|i: int, j: int| 0 <= i < j < s.len() ==> key(s[i]) != key(s[j])
}

/// A key is in the map exactly when some entry carries it.
pub proof fn lemma_assoc_map_dom<K, T>(s: Seq<T>, key: spec_fn(T) -> K)
    ensures
        forall|k: K|
            assoc_map(s, key).contains_key(k) <==> exists|i: int|
                0 <= i < s.len() && key(#[trigger] s[i]) == k,
    decreases s.len(),
{
    if s.len() > 0 {
        lemma_assoc_map_dom(s.drop_last(), key);
        assert forall|k: K| assoc_map(s, key).contains_key(k) implies exists|i: int|
            0 <= i < s.len() && key(#[trigger] s[i]) == k by {
            if k == key(s.last()) {
                assert(key(s[s.len() - 1]) == k);
            } else {
                assert(assoc_map(s.drop_last(), key).contains_key(k));
                let i = choose|i: int| 0 <= i < s.drop_last().len() && key(
                    #[trigger] s.drop_last()[i],
                ) == k;
                assert(s.drop_last()[i] == s[i]);
                assert(key(s[i]) == k);
            }
        }
        assert forall|k: K|
            exists|i: int| 0 <= i < s.len() && key(#[trigger] s[i]) == k implies assoc_map(
            s,
            key,
        ).contains_key(k) by {
            let i = choose|i: int| 0 <= i < s.len() && key(#[trigger] s[i]) == k;
            if i < s.len() - 1 {
                assert(s.drop_last()[i] == s[i]);
                assert(key(s.drop_last()[i]) == k);
                assert(assoc_map(s.drop_last(), key).contains_key(k));
            } else {
                assert(k == key(s.last()));
            }
        }
    }
}

/// Under unique keys, each entry is the value the map holds for its key.
pub proof fn lemma_assoc_map_index<K, T>(s: Seq<T>, key: spec_fn(T) -> K)
    requires
        keys_unique(s, key),
    ensures
        forall|i: int|
            0 <= i < s.len() ==> assoc_map(s, key).contains_key(key(#[trigger] s[i]))
                && assoc_map(s, key)[key(s[i])] == s[i],
    decreases s.len(),
{
    if s.len() > 0 {
        lemma_assoc_map_index(s.drop_last(), key);
        assert forall|i: int| 0 <= i < s.len() implies assoc_map(s, key).contains_key(
            key(#[trigger] s[i]),
        ) && assoc_map(s, key)[key(s[i])] == s[i] by {
            if i < s.len() - 1 {
                assert(s.drop_last()[i] == s[i]);
                assert(key(s[i]) != key(s[s.len() - 1]));
            }
        }
    }
}

/// Under unique keys, the map has exactly one key per entry.
pub proof fn lemma_assoc_map_len<K, T>(s: Seq<T>, key: spec_fn(T) -> K)
    requires
        keys_unique(s, key),
    ensures
        assoc_map(s, key).dom().finite(),
        assoc_map(s, key).dom().len() == s.len(),
    decreases s.len(),
{
    if s.len() > 0 {
        lemma_assoc_map_len(s.drop_last(), key);
        lemma_assoc_map_dom(s.drop_last(), key);
        assert(!assoc_map(s.drop_last(), key).contains_key(key(s.last())));
        assert(assoc_map(s, key).dom() =~= assoc_map(s.drop_last(), key).dom().insert(
            key(s.last()),
        ));
    }
}

/// Appending an entry inserts it into the map.
pub proof fn lemma_assoc_map_push<K, T>(s: Seq<T>, key: spec_fn(T) -> K, t: T)
    ensures
        assoc_map(s.push(t), key) == assoc_map(s, key).insert(key(t), t),
{
    assert(s.push(t).drop_last() =~= s);
    assert(s.push(t).last() == t);
}

/// Replacing an entry by one with the same key updates the map in place.
pub proof fn lemma_assoc_map_update<K, T>(s: Seq<T>, key: spec_fn(T) -> K, i: int, t: T)
    requires
        keys_unique(s, key),
        0 <= i < s.len(),
        key(s[i]) == key(t),
    ensures
        assoc_map(s.update(i, t), key) == assoc_map(s, key).insert(key(t), t),
    decreases s.len(),
{
    if i == s.len() - 1 {
        assert(s.update(i, t).drop_last() =~= s.drop_last());
        assert(s.update(i, t).last() == t);
        assert(assoc_map(s.update(i, t), key) =~= assoc_map(s, key).insert(key(t), t));
    } else {
        lemma_assoc_map_update(s.drop_last(), key, i, t);
        assert(s.update(i, t).drop_last() =~= s.drop_last().update(i, t));
        assert(s.update(i, t).last() == s.last());
        assert(key(s[i]) != key(s[s.len() - 1]));
        assert(assoc_map(s.update(i, t), key) =~= assoc_map(s, key).insert(key(t), t));
    }
}

/// Removing an entry removes its key from the map, if keys are unique.
pub proof fn lemma_assoc_map_remove<K, T>(s: Seq<T>, key: spec_fn(T) -> K, i: int)
    requires
        keys_unique(s, key),
        0 <= i < s.len(),
    ensures
        assoc_map(s.remove(i), key) == assoc_map(s, key).remove(key(s[i])),
    decreases s.len(),
{
    lemma_assoc_map_dom(s.drop_last(), key);
    if i == s.len() - 1 {
        assert(s.remove(i) =~= s.drop_last());
        assert(!assoc_map(s.drop_last(), key).contains_key(key(s.last())));
        assert(assoc_map(s.remove(i), key) =~= assoc_map(s, key).remove(key(s[i])));
    } else {
        lemma_assoc_map_remove(s.drop_last(), key, i);
        assert(s.remove(i).drop_last() =~= s.drop_last().remove(i));
        assert(s.remove(i).last() == s.last());
        assert(key(s[i]) != key(s[s.len() - 1]));
        assert(assoc_map(s.remove(i), key) =~= assoc_map(s, key).remove(key(s[i])));
    }
}

} // verus!
