//! Sequences of records read as maps: each record has a key and a value,
//! and no key occurs twice.

use vstd::prelude::*;

verus! {

/// No two records of `s` have the same key.
pub open spec fn keys_distinct<T, K>(s: Seq<T>, key: spec_fn(T) -> K) -> bool {
    forall|i: int, j: int| 0 <= i < s.len() && 0 <= j < s.len() && i != j ==> key(s[i]) != key(s[j])
}

/// The map from each record's key to its value; where a key repeats, the
/// last record wins.
pub open spec fn to_map<T, K, V>(s: Seq<T>, key: spec_fn(T) -> K, val: spec_fn(T) -> V) -> Map<K, V>
    decreases s.len(),
{
    if s.len() == 0 {
        Map::empty()
    } else {
        to_map(s.drop_last(), key, val).insert(key(s.last()), val(s.last()))
    }
}

/// A key is in the map exactly when some record has it.
pub proof fn lemma_to_map_dom<T, K, V>(s: Seq<T>, key: spec_fn(T) -> K, val: spec_fn(T) -> V, k: K)
    ensures
        to_map(s, key, val).dom().contains(k) <==> exists|i: int| 0 <= i < s.len() && key(s[i]) == k,
    decreases s.len(),
{
    if s.len() > 0 {
        lemma_to_map_dom(s.drop_last(), key, val, k);
        if to_map(s.drop_last(), key, val).dom().contains(k) {
            let i = choose|i: int| 0 <= i < s.drop_last().len() && key(s.drop_last()[i]) == k;
            assert(key(s[i]) == k);
        }
        if exists|i: int| 0 <= i < s.len() && key(s[i]) == k {
            let i = choose|i: int| 0 <= i < s.len() && key(s[i]) == k;
            if i < s.len() - 1 {
                assert(key(s.drop_last()[i]) == k);
            }
        }
    }
}

/// With distinct keys, the map holds each record's value under its key.
pub proof fn lemma_to_map_index<T, K, V>(s: Seq<T>, key: spec_fn(T) -> K, val: spec_fn(T) -> V, i: int)
    requires
        keys_distinct(s, key),
        0 <= i < s.len(),
    ensures
        to_map(s, key, val).dom().contains(key(s[i])),
        to_map(s, key, val)[key(s[i])] == val(s[i]),
    decreases s.len(),
{
    if i < s.len() - 1 {
        assert(keys_distinct(s.drop_last(), key));
        lemma_to_map_index(s.drop_last(), key, val, i);
        assert(key(s.last()) != key(s[i]));
        assert(s.drop_last()[i] == s[i]);
    }
}

/// Removing the record at `i` removes its key from the map.
pub proof fn lemma_to_map_remove<T, K, V>(s: Seq<T>, key: spec_fn(T) -> K, val: spec_fn(T) -> V, i: int)
    requires
        keys_distinct(s, key),
        0 <= i < s.len(),
    ensures
        keys_distinct(s.remove(i), key),
        to_map(s.remove(i), key, val) == to_map(s, key, val).remove(key(s[i])),
    decreases s.len(),
{
    let r = s.remove(i);
    assert forall|a: int, b: int| 0 <= a < r.len() && 0 <= b < r.len() && a != b implies key(r[a]) != key(r[b]) by {
        let a2 = if a < i { a } else { a + 1 };
        let b2 = if b < i { b } else { b + 1 };
        assert(r[a] == s[a2] && r[b] == s[b2]);
    }
    if i == s.len() - 1 {
        assert(r =~= s.drop_last());
        lemma_to_map_dom(r, key, val, key(s[i]));
        assert(!to_map(r, key, val).dom().contains(key(s[i]))) by {
            if exists|j: int| 0 <= j < r.len() && key(r[j]) == key(s[i]) {
                let j = choose|j: int| 0 <= j < r.len() && key(r[j]) == key(s[i]);
                assert(r[j] == s[j]);
            }
        }
        assert(to_map(s, key, val).remove(key(s[i])) =~= to_map(r, key, val));
    } else {
        let d = s.drop_last();
        assert(keys_distinct(d, key));
        lemma_to_map_remove(d, key, val, i);
        assert(r.drop_last() =~= d.remove(i));
        assert(r.last() == s.last());
        assert(key(s.last()) != key(s[i]));
        assert(d[i] == s[i]);
        assert(to_map(r, key, val) =~= to_map(s, key, val).remove(key(s[i])));
    }
}

/// Replacing the record at `i` by one with the same key replaces the
/// value under that key.
pub proof fn lemma_to_map_update<T, K, V>(s: Seq<T>, key: spec_fn(T) -> K, val: spec_fn(T) -> V, i: int, t: T)
    requires
        keys_distinct(s, key),
        0 <= i < s.len(),
        key(t) == key(s[i]),
    ensures
        keys_distinct(s.update(i, t), key),
        to_map(s.update(i, t), key, val) == to_map(s, key, val).insert(key(t), val(t)),
    decreases s.len(),
{
    let u = s.update(i, t);
    assert forall|a: int, b: int| 0 <= a < u.len() && 0 <= b < u.len() && a != b implies key(u[a]) != key(u[b]) by {
        assert(key(u[a]) == key(s[a]) && key(u[b]) == key(s[b]));
    }
    if i == s.len() - 1 {
        assert(u.drop_last() =~= s.drop_last());
        assert(to_map(u, key, val) =~= to_map(s, key, val).insert(key(t), val(t)));
    } else {
        let d = s.drop_last();
        assert(keys_distinct(d, key));
        lemma_to_map_update(d, key, val, i, t);
        assert(u.drop_last() =~= d.update(i, t));
        assert(key(s.last()) != key(s[i]));
        assert(to_map(u, key, val) =~= to_map(s, key, val).insert(key(t), val(t)));
    }
}

/// Appending a record with a new key adds it to the map.
pub proof fn lemma_to_map_push<T, K, V>(s: Seq<T>, key: spec_fn(T) -> K, val: spec_fn(T) -> V, t: T)
    requires
        keys_distinct(s, key),
        !to_map(s, key, val).dom().contains(key(t)),
    ensures
        keys_distinct(s.push(t), key),
        to_map(s.push(t), key, val) == to_map(s, key, val).insert(key(t), val(t)),
{
    let p = s.push(t);
    assert(p.drop_last() =~= s);
    lemma_to_map_dom(s, key, val, key(t));
    assert forall|a: int, b: int| 0 <= a < p.len() && 0 <= b < p.len() && a != b implies key(p[a]) != key(p[b]) by {
        if a < s.len() && b < s.len() {
            assert(p[a] == s[a] && p[b] == s[b]);
        } else if a < s.len() {
            assert(p[a] == s[a]);
        } else {
            assert(p[b] == s[b]);
        }
    }
}

} // verus!
