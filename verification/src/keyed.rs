//! Association-list reasoning: a sequence of records with a key function,
//! abstracted as a `Map` from key to record (later entries win).
use vstd::prelude::*;

verus! {

/// The map induced by a sequence of records under a key function; when two
/// records share a key, the later one wins.
pub open spec fn map_of<K, V>(s: Seq<V>, key: spec_fn(V) -> K) -> Map<K, V>
    decreases s.len(),
{
    if s.len() == 0 {
        Map::empty()
    } else {
        map_of(s.drop_last(), key).insert(key(s.last()), s.last())
    }
}

/// No two records of `s` share a key.
pub open spec fn unique_keys<K, V>(s: Seq<V>, key: spec_fn(V) -> K) -> bool {
    forall|i: int, j: int| 0 <= i < j < s.len() ==> key(#[trigger] s[i]) != key(#[trigger] s[j])
}

/// A key is in the induced map exactly when some record carries it.
pub proof fn lemma_map_of_contains<K, V>(s: Seq<V>, key: spec_fn(V) -> K, k: K)
    ensures
        map_of(s, key).contains_key(k) <==> exists|i: int|
            0 <= i < s.len() && key(#[trigger] s[i]) == k,
    decreases s.len(),
{
    if s.len() > 0 {
        lemma_map_of_contains(s.drop_last(), key, k);
        if key(s.last()) == k {
            assert(key(s[s.len() - 1]) == k);
        } else if map_of(s, key).contains_key(k) {
            let i = choose|i: int| 0 <= i < s.drop_last().len() && key(#[trigger] s.drop_last()[i])
                == k;
            assert(key(s[i]) == k);
        } else if exists|i: int| 0 <= i < s.len() && key(#[trigger] s[i]) == k {
            let i = choose|i: int| 0 <= i < s.len() && key(#[trigger] s[i]) == k;
            assert(i < s.len() - 1);
            assert(key(s.drop_last()[i]) == k);
        }
    }
}

/// Under unique keys, the induced map sends each record's key to the record.
pub proof fn lemma_map_of_index<K, V>(s: Seq<V>, key: spec_fn(V) -> K, i: int)
    requires
        unique_keys(s, key),
        0 <= i < s.len(),
    ensures
        map_of(s, key).contains_key(key(s[i])),
        map_of(s, key)[key(s[i])] == s[i],
    decreases s.len(),
{
    if i == s.len() - 1 {
        assert(s.last() == s[i]);
    } else {
        assert(unique_keys(s.drop_last(), key));
        assert(s.drop_last()[i] == s[i]);
        lemma_map_of_index(s.drop_last(), key, i);
        assert(key(s[s.len() - 1]) != key(s[i]));
    }
}

/// Replacing the record at `i` by one with the same key updates the map.
pub proof fn lemma_map_of_update<K, V>(s: Seq<V>, key: spec_fn(V) -> K, i: int, v: V)
    requires
        unique_keys(s, key),
        0 <= i < s.len(),
        key(v) == key(s[i]),
    ensures
        map_of(s.update(i, v), key) =~= map_of(s, key).insert(key(v), v),
        unique_keys(s.update(i, v), key),
    decreases s.len(),
{
    let t = s.update(i, v);
    assert(unique_keys(t, key)) by {
        assert forall|a: int, b: int| 0 <= a < b < t.len() implies key(#[trigger] t[a]) != key(
            #[trigger] t[b],
        ) by {
            assert(key(t[a]) == key(s[a]) && key(t[b]) == key(s[b]));
        }
    }
    if i == s.len() - 1 {
        assert(t.drop_last() =~= s.drop_last());
        assert(map_of(t, key) == map_of(s.drop_last(), key).insert(key(v), v));
        assert(map_of(s, key).insert(key(v), v) =~= map_of(s.drop_last(), key).insert(key(v), v));
    } else {
        assert(t.drop_last() =~= s.drop_last().update(i, v));
        assert(s.drop_last()[i] == s[i]);
        assert(unique_keys(s.drop_last(), key));
        lemma_map_of_update(s.drop_last(), key, i, v);
        assert(t.last() == s.last());
        assert(key(s[s.len() - 1]) != key(s[i]));
        assert(map_of(t, key) == map_of(t.drop_last(), key).insert(key(s.last()), s.last()));
        assert(map_of(t.drop_last(), key) =~= map_of(s.drop_last(), key).insert(key(v), v));
        assert(map_of(s.drop_last(), key).insert(key(v), v).insert(key(s.last()), s.last()) =~=
            map_of(s.drop_last(), key).insert(key(s.last()), s.last()).insert(key(v), v));
    }
}

/// Appending a record with a fresh key inserts it into the map.
pub proof fn lemma_map_of_push<K, V>(s: Seq<V>, key: spec_fn(V) -> K, v: V)
    requires
        unique_keys(s, key),
        forall|i: int| 0 <= i < s.len() ==> key(#[trigger] s[i]) != key(v),
    ensures
        map_of(s.push(v), key) == map_of(s, key).insert(key(v), v),
        unique_keys(s.push(v), key),
{
    assert(s.push(v).drop_last() =~= s);
    assert(s.push(v).last() == v);
    let t = s.push(v);
    assert forall|a: int, b: int| 0 <= a < b < t.len() implies key(#[trigger] t[a]) != key(
        #[trigger] t[b],
    ) by {
        if b < s.len() {
            assert(key(t[a]) == key(s[a]) && key(t[b]) == key(s[b]));
        } else {
            assert(key(t[a]) == key(s[a]) && key(t[b]) == key(v));
        }
    }
}

/// Removing the record at `i` removes its key from the map.
pub proof fn lemma_map_of_remove<K, V>(s: Seq<V>, key: spec_fn(V) -> K, i: int)
    requires
        unique_keys(s, key),
        0 <= i < s.len(),
    ensures
        map_of(s.remove(i), key) =~= map_of(s, key).remove(key(s[i])),
        unique_keys(s.remove(i), key),
    decreases s.len(),
{
    let t = s.remove(i);
    assert(unique_keys(t, key)) by {
        assert forall|a: int, b: int| 0 <= a < b < t.len() implies key(#[trigger] t[a]) != key(
            #[trigger] t[b],
        ) by {
            let a0 = if a < i { a } else { a + 1 };
            let b0 = if b < i { b } else { b + 1 };
            assert(key(t[a]) == key(s[a0]) && key(t[b]) == key(s[b0]));
        }
    }
    if i == s.len() - 1 {
        assert(t =~= s.drop_last());
        lemma_map_of_absent(s.drop_last(), key, key(s[i]));
        assert(map_of(s, key).remove(key(s[i])) =~= map_of(s.drop_last(), key));
    } else {
        assert(t.drop_last() =~= s.drop_last().remove(i));
        assert(t.last() == s.last());
        assert(s.drop_last()[i] == s[i]);
        assert(unique_keys(s.drop_last(), key));
        lemma_map_of_remove(s.drop_last(), key, i);
        assert(key(s[s.len() - 1]) != key(s[i]));
        assert(map_of(t, key) == map_of(t.drop_last(), key).insert(key(s.last()), s.last()));
        assert(map_of(s.drop_last(), key).remove(key(s[i])).insert(key(s.last()), s.last()) =~=
            map_of(s.drop_last(), key).insert(key(s.last()), s.last()).remove(key(s[i])));
    }
}

/// Under unique keys, each map entry carries the key it is stored under.
pub proof fn lemma_map_of_key<K, V>(s: Seq<V>, key: spec_fn(V) -> K, k: K)
    requires
        unique_keys(s, key),
        map_of(s, key).contains_key(k),
    ensures
        key(map_of(s, key)[k]) == k,
{
    lemma_map_of_contains(s, key, k);
    let i = choose|i: int| 0 <= i < s.len() && key(#[trigger] s[i]) == k;
    lemma_map_of_index(s, key, i);
}

/// A key carried by no record is not in the induced map.
pub proof fn lemma_map_of_absent<K, V>(s: Seq<V>, key: spec_fn(V) -> K, k: K)
    requires
        forall|i: int| 0 <= i < s.len() ==> key(#[trigger] s[i]) != k,
    ensures
        !map_of(s, key).contains_key(k),
{
    lemma_map_of_contains(s, key, k);
}

} // verus!
