//! Which watched lives are shown in a window of their own: bookkeeping between window ids and
//! tile keys, one key per window and each key in at most one window.
use std::collections::HashMap;

use vstd::prelude::*;

use crate::tiles::TileKey;

verus! {

broadcast use vstd::std_specs::hash::group_hash_axioms;

/// Whether some window of `m` shows `key`.
pub open spec fn shows(m: Map<u64, TileKey>, key: TileKey) -> bool {
    exists|id: u64| #[trigger] m.contains_key(id) && m[id] == key
}

/// Whether `v` holds a key equal to `key`.
fn holds_key(v: &[TileKey], key: &TileKey) -> (b: bool)
    ensures
        b == v@.contains(*key),
{
    let mut i: usize = 0;
    while i < v.len()
        invariant
            i <= v@.len(),
            forall|j: int| 0 <= j < i ==> v@[j] != *key,
        decreases v@.len() - i,
    {
        if v[i].same(key) {
            assert(v@[i as int] == *key);
            return true;
        }
        i = i + 1;
    }
    false
}

/// Whether `v` holds `id`.
fn holds_id(v: &Vec<u64>, id: u64) -> (b: bool)
    ensures
        b == v@.contains(id),
{
    let mut i: usize = 0;
    while i < v.len()
        invariant
            i <= v@.len(),
            forall|j: int| 0 <= j < i ==> v@[j] != id,
        decreases v@.len() - i,
    {
        if v[i] == id {
            assert(v@[i as int] == id);
            return true;
        }
        i = i + 1;
    }
    false
}

/// The pop-out windows: one tile key per window, and each key in at most one window.
#[derive(Debug)]
pub struct PopOuts {
    by_window: HashMap<u64, TileKey>,
}

impl View for PopOuts {
    type V = Map<u64, TileKey>;

    closed spec fn view(&self) -> Map<u64, TileKey> {
        self.by_window@
    }
}

impl PopOuts {
    /// The bookkeeping's invariant: distinct windows show distinct keys.
    pub closed spec fn wf(&self) -> bool {
        forall|a: u64, b: u64| #![trigger self.by_window@[a], self.by_window@[b]]
            self.by_window@.contains_key(a) && self.by_window@.contains_key(b) && a != b
            ==> self.by_window@[a] != self.by_window@[b]
    }

    /// No pop-outs.
    pub fn new() -> (p: PopOuts)
        ensures
            p.wf(),
            p@ == Map::<u64, TileKey>::empty(),
    {
        PopOuts { by_window: HashMap::new() }
    }

    /// The live window `id` shows.
    pub fn key_of(&self, id: u64) -> (r: Option<TileKey>)
        requires
            self.wf(),
        ensures
            r == (if self@.contains_key(id) { Some(self@[id]) } else { None::<TileKey> }),
    {
        match self.by_window.get(&id) {
            Some(key) => Some(*key),
            None => None,
        }
    }

    /// The window that shows `key`.
    pub fn window_of(&self, key: TileKey) -> (r: Option<u64>)
        requires
            self.wf(),
        ensures
            r matches Some(id) ==> self@.contains_key(id) && self@[id] == key,
            r is None ==> !shows(self@, key),
    {
        let m = &self.by_window;
        for (id, k) in it: m.iter()
            invariant
                self@ == m@,
                forall|j: int| 0 <= j < it.index() ==> *(#[trigger] it.seq()[j]).1 != key,
        {
            if k.same(&key) {
                assert(it.seq()[it.index()] == (id, k));
                assert(m@.contains_key(*it.seq()[it.index()].0));
                return Some(*id);
            }
        }
        None
    }

    /// Whether `key` has a window of its own.
    pub fn is_popped(&self, key: TileKey) -> (b: bool)
        requires
            self.wf(),
        ensures
            b == shows(self@, key),
    {
        self.window_of(key).is_some()
    }

    /// Records that window `id` shows `key`. Returns false, and changes nothing, when the key is
    /// already popped out: a live is never in two windows.
    pub fn insert(&mut self, id: u64, key: TileKey) -> (b: bool)
        requires
            old(self).wf(),
        ensures
            final(self).wf(),
            b == !shows(old(self)@, key),
            b ==> final(self)@ == old(self)@.insert(id, key),
            !b ==> final(self)@ == old(self)@,
    {
        if self.is_popped(key) {
            return false;
        }
        self.by_window.insert(id, key);
        proof {
            let m = self.by_window@;
            assert forall|a: u64, b: u64| #![trigger m[a], m[b]]
                m.contains_key(a) && m.contains_key(b) && a != b implies m[a] != m[b] by {
                if a != id && b != id {
                    assert(old(self).by_window@[a] == m[a] && old(self).by_window@[b] == m[b]);
                } else if a == id {
                    assert(old(self).by_window@.contains_key(b) && old(self).by_window@[b] == m[b]);
                } else {
                    assert(old(self).by_window@.contains_key(a) && old(self).by_window@[a] == m[a]);
                }
            }
        }
        true
    }

    /// Forgets window `id`, returning the live it showed.
    pub fn remove_window(&mut self, id: u64) -> (r: Option<TileKey>)
        requires
            old(self).wf(),
        ensures
            final(self).wf(),
            final(self)@ == old(self)@.remove(id),
            r == (if old(self)@.contains_key(id) { Some(old(self)@[id]) } else { None::<TileKey> }),
    {
        let r = self.by_window.remove(&id);
        proof {
            let m = self.by_window@;
            assert forall|a: u64, b: u64| #![trigger m[a], m[b]]
                m.contains_key(a) && m.contains_key(b) && a != b implies m[a] != m[b] by {
                assert(old(self).by_window@[a] == m[a] && old(self).by_window@[b] == m[b]);
            }
        }
        r
    }

    /// Forgets the window that shows `key`, returning its id.
    pub fn remove_key(&mut self, key: TileKey) -> (r: Option<u64>)
        requires
            old(self).wf(),
        ensures
            final(self).wf(),
            r matches Some(id) ==> old(self)@.contains_key(id) && old(self)@[id] == key
                && final(self)@ == old(self)@.remove(id),
            r is None ==> !shows(old(self)@, key) && final(self)@ == old(self)@,
    {
        match self.window_of(key) {
            Some(id) => {
                self.remove_window(id);
                Some(id)
            },
            None => None,
        }
    }

    /// Forgets every window whose live is not in `watched` and returns those ids, each once, so
    /// the caller closes the windows.
    pub fn retain_watched(&mut self, watched: &[TileKey]) -> (closed: Vec<u64>)
        requires
            old(self).wf(),
        ensures
            final(self).wf(),
            forall|id: u64| #[trigger] final(self)@.contains_key(id) <==> old(self)@.contains_key(id)
                && watched@.contains(old(self)@[id]),
            forall|id: u64| #[trigger] final(self)@.contains_key(id) ==> final(self)@[id] == old(self)@[id],
            forall|id: u64| #[trigger] closed@.contains(id) <==> old(self)@.contains_key(id)
                && !watched@.contains(old(self)@[id]),
            closed@.no_duplicates(),
    {
        let ghost start = self.by_window@;
        let mut closed: Vec<u64> = Vec::new();
        let m = &self.by_window;
        for (id, k) in it: m.iter()
            invariant
                start == m@,
                closed@.no_duplicates(),
                forall|c: u64| #[trigger] closed@.contains(c) ==> start.contains_key(c) && !watched@.contains(start[c]),
                forall|j: int| 0 <= j < it.index() && !watched@.contains(*(#[trigger] it.seq()[j]).1)
                    ==> closed@.contains(*it.seq()[j].0),
        {
            assert(it.seq()[it.index()] == (id, k));
            assert(m@.contains_key(*it.seq()[it.index()].0));
            assert(m@[*it.seq()[it.index()].0] == *it.seq()[it.index()].1);
            let ghost before = closed@;
            let unwatched = !holds_key(watched, k);
            let already = holds_id(&closed, *id);
            if unwatched && !already {
                closed.push(*id);
                proof {
                    assert(closed@[closed@.len() - 1] == *id);
                    assert forall|c: u64| #[trigger] closed@.contains(c) implies start.contains_key(c)
                        && !watched@.contains(start[c]) by {
                        let t = choose|t: int| 0 <= t < closed@.len() && closed@[t] == c;
                        if t < before.len() {
                            assert(before[t] == c);
                            assert(before.contains(c));
                        }
                    }
                }
            }
            proof {
                assert forall|x: u64| before.contains(x) implies #[trigger] closed@.contains(x) by {
                    let t = choose|t: int| 0 <= t < before.len() && before[t] == x;
                    assert(closed@[t] == x);
                }
                if unwatched {
                    assert(closed@.contains(*id));
                }
            }
        }
        assert(forall|id: u64| #[trigger] start.contains_key(id) && !watched@.contains(start[id])
            ==> closed@.contains(id));
        let mut i: usize = 0;
        while i < closed.len()
            invariant
                i <= closed@.len(),
                closed@.no_duplicates(),
                forall|c: u64| #[trigger] closed@.contains(c) ==> start.contains_key(c),
                forall|id: u64| #[trigger] self.by_window@.contains_key(id) <==> start.contains_key(id)
                    && !closed@.take(i as int).contains(id),
                forall|id: u64| #[trigger] self.by_window@.contains_key(id) ==> self.by_window@[id] == start[id],
            decreases closed@.len() - i,
        {
            let c = closed[i];
            let ghost prev = self.by_window@;
            self.by_window.remove(&c);
            proof {
                assert(self.by_window@ == prev.remove(c));
                assert(closed@.take(i + 1) =~= closed@.take(i as int).push(c));
                assert forall|id: u64| #[trigger] self.by_window@.contains_key(id) <==> start.contains_key(id)
                    && !closed@.take(i + 1).contains(id) by {
                    let before = closed@.take(i as int);
                    let after = closed@.take(i + 1);
                    assert(prev.contains_key(id) <==> start.contains_key(id) && !before.contains(id));
                    assert(after[i as int] == c);
                    if before.contains(id) {
                        let t = choose|t: int| 0 <= t < before.len() && #[trigger] before[t] == id;
                        assert(after[t] == id);
                    }
                    if after.contains(id) && id != c {
                        let t = choose|t: int| 0 <= t < after.len() && #[trigger] after[t] == id;
                        assert(before[t] == id);
                    }
                }
            }
            i = i + 1;
        }
        proof {
            assert(closed@.take(closed@.len() as int) =~= closed@);
            let m2 = self.by_window@;
            assert forall|a: u64, b: u64| #![trigger m2[a], m2[b]]
                m2.contains_key(a) && m2.contains_key(b) && a != b implies m2[a] != m2[b] by {
                assert(start[a] == m2[a] && start[b] == m2[b]);
            }
        }
        closed
    }

    /// The keys the grid must skip, each once.
    pub fn popped(&self) -> (keys: Vec<TileKey>)
        requires
            self.wf(),
        ensures
            forall|key: TileKey| #[trigger] keys@.contains(key) <==> shows(self@, key),
            keys@.no_duplicates(),
    {
        let mut keys: Vec<TileKey> = Vec::new();
        let m = &self.by_window;
        for (id, k) in it: m.iter()
            invariant
                self@ == m@,
                keys@.no_duplicates(),
                forall|key: TileKey| #[trigger] keys@.contains(key) ==> shows(m@, key),
                forall|j: int| 0 <= j < it.index() ==> keys@.contains(*(#[trigger] it.seq()[j]).1),
        {
            assert(it.seq()[it.index()] == (id, k));
            assert(m@.contains_key(*it.seq()[it.index()].0));
            assert(m@[*it.seq()[it.index()].0] == *it.seq()[it.index()].1);
            let ghost before = keys@;
            let present = holds_key(keys.as_slice(), k);
            if !present {
                keys.push(*k);
                proof {
                    assert(keys@[keys@.len() - 1] == *k);
                    assert forall|key: TileKey| #[trigger] keys@.contains(key) implies shows(m@, key) by {
                        let t = choose|t: int| 0 <= t < keys@.len() && keys@[t] == key;
                        if t < before.len() {
                            assert(before[t] == key);
                            assert(before.contains(key));
                        } else {
                            assert(m@.contains_key(*id) && m@[*id] == key);
                        }
                    }
                }
            }
            proof {
                assert forall|x: TileKey| before.contains(x) implies #[trigger] keys@.contains(x) by {
                    let t = choose|t: int| 0 <= t < before.len() && before[t] == x;
                    assert(keys@[t] == x);
                }
                assert(keys@.contains(*k));
            }
        }
        assert(forall|id: u64| #[trigger] m@.contains_key(id) ==> keys@.contains(m@[id]));
        keys
    }

    /// Whether no live has a window of its own.
    pub fn is_empty(&self) -> (b: bool)
        requires
            self.wf(),
        ensures
            b == (self@ == Map::<u64, TileKey>::empty()),
    {
        let b = self.by_window.is_empty();
        proof {
            if !b && self@ == Map::<u64, TileKey>::empty() {
                assert(self@.dom() =~= Set::<u64>::empty());
            }
            if b {
                assert(self@.dom().len() == 0);
                assert(self@.dom() =~= Set::<u64>::empty()) by {
                    if exists|x: u64| self@.dom().contains(x) {
                        let x = choose|x: u64| self@.dom().contains(x);
                        vstd::set_lib::lemma_set_empty_equivalency_len(self@.dom());
                    }
                }
                assert(self@ =~= Map::<u64, TileKey>::empty());
            }
        }
        b
    }

    /// A live is never in two windows: distinct windows show distinct lives.
    pub proof fn lemma_one_window_per_key(&self)
        requires
            self.wf(),
        ensures
            forall|a: u64, b: u64|
                self@.contains_key(a) && self@.contains_key(b) && a != b ==> #[trigger] self@[a] != #[trigger] self@[b],
    {
    }
}

} // verus!
