//! A `BTreeMap<u32, _>` seen as its entries in increasing id order, the order it iterates them in.
use std::collections::BTreeMap;

use vstd::prelude::*;
use vstd::std_specs::cmp::OrdSpec;

verus! {

broadcast use {vstd::std_specs::btree::group_btree_axioms, vstd::laws_cmp::group_laws_cmp};

/// Whether the ids of `s` strictly increase.
pub open spec fn ids_increase<T>(s: Seq<(u32, T)>) -> bool {
    forall|i: int, j: int| 0 <= i < j < s.len() ==> (#[trigger] s[i]).0 < (#[trigger] s[j]).0
}

/// Whether `id` is among the ids of `s`.
pub open spec fn has_id<T>(s: Seq<(u32, T)>, id: u32) -> bool {
    exists|i: int| 0 <= i < s.len() && (#[trigger] s[i]).0 == id
}

/// The value stored under `id` in `s`, when there is one.
pub open spec fn value_at<T>(s: Seq<(u32, T)>, id: u32) -> Option<T> {
    if has_id(s, id) {
        Some(s[choose|i: int| 0 <= i < s.len() && (#[trigger] s[i]).0 == id].1)
    } else {
        None
    }
}

/// `s` without the entries whose id is `id`, the rest in order.
pub open spec fn without_id<T>(s: Seq<(u32, T)>, id: u32) -> Seq<(u32, T)>
    decreases s.len(),
{
    if s.len() == 0 {
        s
    } else if s.last().0 == id {
        without_id(s.drop_last(), id)
    } else {
        without_id(s.drop_last(), id).push(s.last())
    }
}

/// `s` as a mathematical map.
pub open spec fn as_map<T>(s: Seq<(u32, T)>) -> Map<u32, T> {
    Map::new(|id: u32| has_id(s, id), |id: u32| value_at(s, id)->0)
}

/// In increasing ids, the entry with id `id` is at index `i`.
pub proof fn lemma_value_at_index<T>(s: Seq<(u32, T)>, i: int)
    requires
        ids_increase(s),
        0 <= i < s.len(),
    ensures
        has_id(s, s[i].0),
        value_at(s, s[i].0) == Some(s[i].1),
        as_map(s).contains_key(s[i].0),
        as_map(s)[s[i].0] == s[i].1,
{
    let id = s[i].0;
    assert(has_id(s, id));
    let j = choose|j: int| 0 <= j < s.len() && (#[trigger] s[j]).0 == id;
    if j != i {
        if j < i {
            assert(s[j].0 < s[i].0);
        } else {
            assert(s[i].0 < s[j].0);
        }
    }
}

/// The entries of `m` in increasing id order: the one sequence whose ids increase and whose
/// entries are those of `m`.
pub open spec fn in_id_order<T>(m: Map<u32, T>) -> Seq<(u32, T)> {
    choose|s: Seq<(u32, T)>| ids_increase(s) && as_map(s) == m
}

/// A finite nonempty set of ids has a largest.
proof fn lemma_largest_id(s: Set<u32>) -> (k: u32)
    requires
        s.finite(),
        s.len() > 0,
    ensures
        s.contains(k),
        forall|j: u32| s.contains(j) ==> j <= k,
    decreases s.len(),
{
    let a = s.choose();
    let r = s.remove(a);
    if r.len() == 0 {
        assert forall|j: u32| s.contains(j) implies j <= a by {
            if j != a {
                assert(r.contains(j));
            }
        }
        a
    } else {
        let b = lemma_largest_id(r);
        if a > b {
            assert forall|j: u32| s.contains(j) implies j <= a by {
                if j != a {
                    assert(r.contains(j));
                }
            }
            a
        } else {
            assert forall|j: u32| s.contains(j) implies j <= b by {
                if j != a {
                    assert(r.contains(j));
                }
            }
            b
        }
    }
}

/// Increasing ids without their last entry are the map without its largest id.
proof fn lemma_drop_last_map<T>(s: Seq<(u32, T)>)
    requires
        ids_increase(s),
        s.len() > 0,
    ensures
        ids_increase(s.drop_last()),
        as_map(s.drop_last()) == as_map(s).remove(s.last().0),
{
    let d = s.drop_last();
    let l = s.last();
    assert forall|id: u32| #[trigger] has_id(d, id) == (has_id(s, id) && id != l.0) by {
        if has_id(d, id) {
            let j = choose|j: int| 0 <= j < d.len() && (#[trigger] d[j]).0 == id;
            assert(s[j].0 == id);
            assert(s[j].0 < s[s.len() - 1].0);
        }
        if has_id(s, id) && id != l.0 {
            let j = choose|j: int| 0 <= j < s.len() && (#[trigger] s[j]).0 == id;
            assert(j != s.len() - 1);
            assert(d[j].0 == id);
        }
    }
    assert forall|id: u32| has_id(d, id) implies value_at(d, id) == value_at(s, id) by {
        let j = choose|j: int| 0 <= j < d.len() && (#[trigger] d[j]).0 == id;
        lemma_value_at_index(d, j);
        assert(s[j] == d[j]);
        lemma_value_at_index(s, j);
    }
    assert(as_map(d) =~= as_map(s).remove(l.0));
}

/// Every finite map has its entries in increasing id order.
proof fn lemma_in_id_order_exists<T>(m: Map<u32, T>)
    requires
        m.dom().finite(),
    ensures
        ids_increase(in_id_order(m)),
        as_map(in_id_order(m)) == m,
    decreases m.dom().len(),
{
    if m.dom().len() == 0 {
        let e = Seq::<(u32, T)>::empty();
        assert(m.dom() =~= Set::<u32>::empty()) by {
            if exists|k: u32| m.dom().contains(k) {
                let k = choose|k: u32| m.dom().contains(k);
                assert(m.dom().len() > 0);
            }
        }
        assert(as_map(e) =~= m);
        assert(ids_increase(e) && as_map(e) == m);
    } else {
        let k = lemma_largest_id(m.dom());
        let r = m.remove(k);
        assert(r.dom() =~= m.dom().remove(k));
        lemma_in_id_order_exists(r);
        let t = in_id_order(r);
        let s = t.push((k, m[k]));
        assert forall|i: int| 0 <= i < t.len() implies (#[trigger] t[i]).0 < k by {
            lemma_value_at_index(t, i);
        }
        assert(ids_increase(s)) by {
            assert forall|a: int, b: int| 0 <= a < b < s.len() implies (#[trigger] s[a]).0 < (#[trigger] s[b]).0 by {
                assert(s[a] == t[a]);
                if b < t.len() {
                    assert(s[b] == t[b]);
                }
            }
        }
        lemma_drop_last_map(s);
        assert(s.drop_last() =~= t);
        lemma_value_at_index(s, t.len() as int);
        assert(as_map(s) =~= m) by {
            assert forall|id: u32| #[trigger] as_map(s).contains_key(id) == m.contains_key(id) by {
                if id != k {
                    assert(as_map(t).contains_key(id) == r.contains_key(id));
                }
            }
            assert forall|id: u32| #[trigger] as_map(s).contains_key(id) implies as_map(s)[id] == m[id] by {
                if id != k {
                    assert(as_map(s).remove(k)[id] == r[id]);
                }
            }
        }
        assert(ids_increase(s) && as_map(s) == m);
    }
}

/// Entries in increasing id order are fixed by the map they hold.
proof fn lemma_in_id_order_unique<T>(s: Seq<(u32, T)>, t: Seq<(u32, T)>)
    requires
        ids_increase(s),
        ids_increase(t),
        as_map(s) == as_map(t),
    ensures
        s == t,
    decreases s.len() + t.len(),
{
    if s.len() == 0 || t.len() == 0 {
        if s.len() > 0 {
            lemma_value_at_index(s, 0);
        }
        if t.len() > 0 {
            lemma_value_at_index(t, 0);
        }
        assert(s =~= t);
    } else {
        let ls = s.last();
        let lt = t.last();
        lemma_value_at_index(s, s.len() - 1);
        lemma_value_at_index(t, t.len() - 1);
        let i = choose|i: int| 0 <= i < s.len() && (#[trigger] s[i]).0 == lt.0;
        let j = choose|j: int| 0 <= j < t.len() && (#[trigger] t[j]).0 == ls.0;
        if i != s.len() - 1 {
            assert(s[i].0 < ls.0);
        }
        if j != t.len() - 1 {
            assert(t[j].0 < lt.0);
        }
        assert(ls.0 == lt.0);
        assert(ls == lt);
        lemma_drop_last_map(s);
        lemma_drop_last_map(t);
        lemma_in_id_order_unique(s.drop_last(), t.drop_last());
        assert(s =~= s.drop_last().push(ls));
        assert(t =~= t.drop_last().push(lt));
    }
}

/// Removing the entry at index `i` of increasing ids leaves increasing ids holding the map
/// without that id.
proof fn lemma_remove_at<T>(s: Seq<(u32, T)>, i: int)
    requires
        ids_increase(s),
        0 <= i < s.len(),
    ensures
        ids_increase(s.remove(i)),
        as_map(s.remove(i)) == as_map(s).remove(s[i].0),
{
    let id = s[i].0;
    let r = s.remove(i);
    assert forall|a: int, b: int| 0 <= a < b < r.len() implies (#[trigger] r[a]).0 < (#[trigger] r[b]).0 by {
        if a < i && b >= i {
            assert(r[b] == s[b + 1]);
        } else if a >= i {
            assert(r[a] == s[a + 1]);
            assert(r[b] == s[b + 1]);
        }
    }
    assert forall|key: u32| #[trigger] has_id(r, key) == (has_id(s, key) && key != id) by {
        if has_id(r, key) {
            let j = choose|j: int| 0 <= j < r.len() && (#[trigger] r[j]).0 == key;
            if j < i {
                assert(s[j].0 == key);
                assert(s[j].0 < s[i].0);
            } else {
                assert(s[j + 1].0 == key);
                assert(s[i].0 < s[j + 1].0);
            }
        }
        if has_id(s, key) && key != id {
            let j = choose|j: int| 0 <= j < s.len() && (#[trigger] s[j]).0 == key;
            if j < i {
                assert(r[j].0 == key);
            } else {
                assert(j != i);
                assert(r[j - 1].0 == key);
            }
        }
    }
    assert forall|key: u32| has_id(r, key) implies value_at(r, key) == value_at(s, key) by {
        let j = choose|j: int| 0 <= j < r.len() && (#[trigger] r[j]).0 == key;
        lemma_value_at_index(r, j);
        if j < i {
            assert(r[j] == s[j]);
            lemma_value_at_index(s, j);
        } else {
            assert(r[j] == s[j + 1]);
            lemma_value_at_index(s, j + 1);
        }
    }
    assert(as_map(r) =~= as_map(s).remove(id));
}

/// Entries keyed by `u32`, each id at most once, seen in increasing id order.
#[derive(Debug, Clone)]
pub struct IdMap<T> {
    map: BTreeMap<u32, T>,
}

impl<T> View for IdMap<T> {
    type V = Seq<(u32, T)>;

    closed spec fn view(&self) -> Seq<(u32, T)> {
        in_id_order(self.map@)
    }
}

impl<T> IdMap<T> {
    /// The map's well-formedness: ids strictly increase.
    pub open spec fn wf(&self) -> bool {
        ids_increase(self@)
    }

    /// The entries as a mathematical map.
    pub open spec fn map(&self) -> Map<u32, T> {
        as_map(self@)
    }

    /// The entries in id order are those of the underlying map.
    proof fn lemma_view(&self)
        ensures
            self.wf(),
            self.map() == self.map@,
    {
        lemma_in_id_order_exists(self.map@);
    }

    /// No entries.
    pub fn new() -> (m: IdMap<T>)
        ensures
            m.wf(),
            m@ == Seq::<(u32, T)>::empty(),
    {
        let m = IdMap { map: BTreeMap::new() };
        proof {
            m.lemma_view();
            let e = Seq::<(u32, T)>::empty();
            assert(as_map(e) =~= m.map@);
            lemma_in_id_order_unique(e, m@);
        }
        m
    }

    /// The ids, in increasing order.
    pub fn ids(&self) -> (r: Vec<u32>)
        ensures
            r@.len() == self@.len(),
            forall|i: int| 0 <= i < r@.len() ==> r@[i] == (#[trigger] self@[i]).0,
    {
        let ghost m = self.map@;
        let mut out: Vec<u32> = Vec::new();
        for (k, v) in it: self.map.iter()
            invariant
                m == self.map@,
                vstd::std_specs::btree::increasing_seq(it.seq().map_values(|kv: (&u32, &T)| *kv.0)),
                out@.len() == it.index(),
                forall|j: int| 0 <= j < it.index() ==> out@[j] == *(#[trigger] it.seq()[j]).0,
                forall|a: int, b: int| 0 <= a < b < out@.len() ==> (#[trigger] out@[a]) < (#[trigger] out@[b]),
                forall|j: int| 0 <= j < out@.len() ==> m.contains_key(#[trigger] out@[j]),
        {
            assert(it.seq()[it.index()] == (k, v));
            assert(m.contains_key(*it.seq()[it.index()].0));
            let ghost keys = it.seq().map_values(|kv: (&u32, &T)| *kv.0);
            assert(vstd::laws_cmp::obeys_cmp::<u32>());
            assert forall|j: int| 0 <= j < it.index() implies out@[j] < *k by {
                assert(keys[j] == out@[j]);
                assert(keys[it.index()] == *k);
                assert(keys[j].cmp_spec(&keys[it.index()]) is Less);
            }
            out.push(*k);
        }
        assert(forall|k: u32| #[trigger] m.contains_key(k) ==> out@.contains(k));
        proof {
            self.lemma_view();
            let s = out@.map_values(|k: u32| (k, m[k]));
            assert(ids_increase(s));
            assert forall|id: u32| #[trigger] has_id(s, id) == m.contains_key(id) by {
                if m.contains_key(id) {
                    let j = choose|j: int| 0 <= j < out@.len() && out@[j] == id;
                    assert(s[j].0 == id);
                }
            }
            assert forall|id: u32| has_id(s, id) implies value_at(s, id) == Some(m[id]) by {
                let j = choose|j: int| 0 <= j < s.len() && (#[trigger] s[j]).0 == id;
                lemma_value_at_index(s, j);
            }
            assert(as_map(s) =~= m);
            lemma_in_id_order_unique(s, self@);
        }
        out
    }

    /// Whether `id` has an entry.
    pub fn contains(&self, id: u32) -> (b: bool)
        ensures
            b == has_id(self@, id),
            b == self.map().contains_key(id),
    {
        proof {
            self.lemma_view();
        }
        self.map.contains_key(&id)
    }

    /// The value under `id`, if any.
    pub fn get(&self, id: u32) -> (v: Option<&T>)
        ensures
            v is Some == has_id(self@, id),
            v is Some ==> self.map().contains_key(id) && *(v->0) == self.map()[id],
            v is None ==> !self.map().contains_key(id),
    {
        proof {
            self.lemma_view();
        }
        self.map.get(&id)
    }

    /// Stores `value` under `id`, replacing what was there.
    pub fn insert(&mut self, id: u32, value: T)
        ensures
            final(self).wf(),
            final(self).map() == old(self).map().insert(id, value),
    {
        proof {
            self.lemma_view();
        }
        self.map.insert(id, value);
        proof {
            self.lemma_view();
        }
    }

    /// Removes `id`'s entry, if any, and returns its value; the others keep their order.
    pub fn remove(&mut self, id: u32) -> (v: Option<T>)
        ensures
            final(self).wf(),
            final(self).map() == old(self).map().remove(id),
            v is Some == old(self).map().contains_key(id),
            v is Some ==> v->0 == old(self).map()[id],
            final(self)@ == without_id(old(self)@, id),
    {
        let ghost before = self@;
        proof {
            self.lemma_view();
        }
        let v = self.map.remove(&id);
        proof {
            self.lemma_view();
            if has_id(before, id) {
                let i = choose|i: int| 0 <= i < before.len() && (#[trigger] before[i]).0 == id;
                lemma_filter_removes_one(before, i);
                lemma_remove_at(before, i);
                lemma_in_id_order_unique(before.remove(i), self@);
            } else {
                lemma_filter_keeps_all(before, id);
                assert(self.map@ =~= as_map(before));
                lemma_in_id_order_unique(before, self@);
            }
        }
        v
    }
}

/// What `without_id` keeps comes from `s`.
pub proof fn lemma_without_id_from<T>(s: Seq<(u32, T)>, id: u32)
    ensures
        forall|x: (u32, T)| without_id(s, id).contains(x) ==> s.contains(x),
    decreases s.len(),
{
    if s.len() > 0 {
        lemma_without_id_from(s.drop_last(), id);
        assert forall|x: (u32, T)| without_id(s, id).contains(x) implies s.contains(x) by {
            let d = s.drop_last();
            if without_id(s.drop_last(), id).contains(x) {
                assert(d.contains(x));
                let k = choose|k: int| 0 <= k < d.len() && d[k] == x;
                assert(d[k] == s[k]);
                assert(s[k] == x);
            } else {
                assert(x == s.last());
                assert(s[s.len() - 1] == x);
            }
        }
    }
}

/// Filtering out an id that is absent keeps every entry.
proof fn lemma_filter_keeps_all<T>(s: Seq<(u32, T)>, id: u32)
    requires
        !has_id(s, id),
    ensures
        without_id(s, id) == s,
    decreases s.len(),
{
    if s.len() > 0 {
        assert(!has_id(s.drop_last(), id)) by {
            if has_id(s.drop_last(), id) {
                let j = choose|j: int| 0 <= j < s.drop_last().len() && (#[trigger] s.drop_last()[j]).0 == id;
                assert(s[j].0 == id);
            }
        }
        assert(s[s.len() - 1].0 != id);
        lemma_filter_keeps_all(s.drop_last(), id);
        assert(s.drop_last().push(s.last()) =~= s);
    }
}

/// In increasing ids, filtering out the id at index `i` removes exactly that entry.
pub proof fn lemma_filter_removes_one<T>(s: Seq<(u32, T)>, i: int)
    requires
        ids_increase(s),
        0 <= i < s.len(),
    ensures
        without_id(s, s[i].0) == s.remove(i),
    decreases s.len(),
{
    let id = s[i].0;
    if i == s.len() - 1 {
        assert(!has_id(s.drop_last(), id)) by {
            if has_id(s.drop_last(), id) {
                let j = choose|j: int| 0 <= j < s.drop_last().len() && (#[trigger] s.drop_last()[j]).0 == id;
                assert(s[j].0 < s[i].0);
            }
        }
        lemma_filter_keeps_all(s.drop_last(), id);
        assert(s.remove(i) =~= s.drop_last());
    } else {
        let d = s.drop_last();
        assert(ids_increase(d));
        assert(d[i] == s[i]);
        lemma_filter_removes_one(d, i);
        assert(s.last().0 != id);
        assert(s.remove(i) =~= d.remove(i).push(s.last()));
    }
}

} // verus!
