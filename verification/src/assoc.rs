//! Association lists: a sequence of key and value pairs, each key at most once, read as a map.
//! The small tables of the window keep their entries this way.
use vstd::prelude::*;

verus! {

/// No two entries of `s` share a key.
pub open spec fn keys_unique<K, V>(s: Seq<(K, V)>) -> bool {
    forall|i: int, j: int|
        0 <= i < s.len() && 0 <= j < s.len() && i != j ==> (#[trigger] s[i]).0 != (#[trigger] s[j]).0
}

/// Whether some entry of `s` has key `k`.
pub open spec fn has_key<K, V>(s: Seq<(K, V)>, k: K) -> bool {
    exists|i: int| 0 <= i < s.len() && (#[trigger] s[i]).0 == k
}

/// The value of key `k` in `s`.
pub open spec fn value_of<K, V>(s: Seq<(K, V)>, k: K) -> V {
    s[choose|i: int| 0 <= i < s.len() && (#[trigger] s[i]).0 == k].1
}

/// The entries of `s` as a map.
pub open spec fn assoc_map<K, V>(s: Seq<(K, V)>) -> Map<K, V> {
    Map::new(|k: K| has_key(s, k), |k: K| value_of(s, k))
}

/// With unique keys, the entry at `i` is what the map holds for its key.
pub proof fn lemma_map_at<K, V>(s: Seq<(K, V)>, i: int)
    requires
        keys_unique(s),
        0 <= i < s.len(),
    ensures
        assoc_map(s).contains_key(s[i].0),
        assoc_map(s)[s[i].0] == s[i].1,
{
    let k = s[i].0;
    assert(has_key(s, k));
    let j = choose|j: int| 0 <= j < s.len() && (#[trigger] s[j]).0 == k;
    assert(s[j].0 == s[i].0);
}

/// A key of the map has an entry.
pub proof fn lemma_entry_of<K, V>(s: Seq<(K, V)>, k: K) -> (i: int)
    requires
        keys_unique(s),
        assoc_map(s).contains_key(k),
    ensures
        0 <= i < s.len(),
        s[i].0 == k,
        assoc_map(s)[k] == s[i].1,
{
    let i = choose|i: int| 0 <= i < s.len() && (#[trigger] s[i]).0 == k;
    lemma_map_at(s, i);
    i
}

/// Appending an entry for a new key adds it to the map.
pub proof fn lemma_push<K, V>(s: Seq<(K, V)>, k: K, v: V)
    requires
        keys_unique(s),
        !has_key(s, k),
    ensures
        keys_unique(s.push((k, v))),
        assoc_map(s.push((k, v))) == assoc_map(s).insert(k, v),
{
    let t = s.push((k, v));
    assert(keys_unique(t));
    assert forall|x: K| assoc_map(t).contains_key(x) <==> assoc_map(s).insert(k, v).contains_key(x) by {
        if assoc_map(t).contains_key(x) && x != k {
            let i = choose|i: int| 0 <= i < t.len() && (#[trigger] t[i]).0 == x;
            assert(i < s.len());
            assert(s[i].0 == x);
        }
        if assoc_map(s).contains_key(x) {
            let i = lemma_entry_of(s, x);
            assert(t[i].0 == x);
        }
        if x == k {
            assert(t[s.len() as int].0 == k);
        }
    }
    assert forall|x: K| #[trigger] assoc_map(t).contains_key(x) implies assoc_map(t)[x]
        == assoc_map(s).insert(k, v)[x] by {
        if x == k {
            lemma_map_at(t, s.len() as int);
        } else {
            let i = lemma_entry_of(s, x);
            assert(t[i] == s[i]);
            lemma_map_at(t, i);
        }
    }
    assert(assoc_map(t) =~= assoc_map(s).insert(k, v));
}

/// Replacing the value of the entry at `i` replaces it in the map.
pub proof fn lemma_update<K, V>(s: Seq<(K, V)>, i: int, v: V)
    requires
        keys_unique(s),
        0 <= i < s.len(),
    ensures
        keys_unique(s.update(i, (s[i].0, v))),
        assoc_map(s.update(i, (s[i].0, v))) == assoc_map(s).insert(s[i].0, v),
{
    let k = s[i].0;
    let t = s.update(i, (k, v));
    assert(keys_unique(t));
    lemma_map_at(s, i);
    assert forall|x: K| assoc_map(t).contains_key(x) <==> assoc_map(s).insert(k, v).contains_key(x) by {
        if assoc_map(t).contains_key(x) {
            let j = choose|j: int| 0 <= j < t.len() && (#[trigger] t[j]).0 == x;
            assert(s[j].0 == x);
        }
        if assoc_map(s).contains_key(x) {
            let j = lemma_entry_of(s, x);
            assert(t[j].0 == x);
        }
        assert(t[i].0 == k);
    }
    assert forall|x: K| #[trigger] assoc_map(t).contains_key(x) implies assoc_map(t)[x]
        == assoc_map(s).insert(k, v)[x] by {
        if x == k {
            lemma_map_at(t, i);
        } else {
            let j = lemma_entry_of(s, x);
            assert(t[j] == s[j]);
            lemma_map_at(t, j);
        }
    }
    assert(assoc_map(t) =~= assoc_map(s).insert(k, v));
}

} // verus!
