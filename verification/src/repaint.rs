//! Per-window repaint deadlines. Each window's UI pass may ask for its next frame at some instant
//! (a cursor blink, an animation); that deadline must wake only that window. Instants are
//! nanoseconds on the caller's monotonic clock.
use std::collections::HashMap;

use vstd::prelude::*;

verus! {

broadcast use vstd::std_specs::hash::group_hash_axioms;

/// The earliest requested repaint of every window that has one pending, keyed by window id.
#[derive(Debug)]
pub struct RepaintSchedule {
    deadlines: HashMap<u64, u64>,
}

impl RepaintSchedule {
    /// The pending deadline of every window, by window id.
    pub closed spec fn pending(&self) -> Map<u64, u64> {
        self.deadlines@
    }

    /// No deadline pending.
    pub fn new() -> (s: RepaintSchedule)
        ensures
            s.pending() == Map::<u64, u64>::empty(),
    {
        RepaintSchedule { deadlines: HashMap::new() }
    }

    /// Records `id`'s next requested repaint, keeping the earlier deadline if one was already
    /// pending for it.
    pub fn note(&mut self, id: u64, deadline: u64)
        ensures
            final(self).pending() == old(self).pending().insert(
                id,
                if old(self).pending().contains_key(id) && old(self).pending()[id] < deadline {
                    old(self).pending()[id]
                } else {
                    deadline
                },
            ),
    {
        let earliest = match self.deadlines.get(&id) {
            Some(existing) => if *existing < deadline {
                *existing
            } else {
                deadline
            },
            None => deadline,
        };
        self.deadlines.insert(id, earliest);
    }

    /// Forgets `id`'s pending deadline, if any: the window closed or no longer needs waking.
    pub fn remove(&mut self, id: u64)
        ensures
            final(self).pending() == old(self).pending().remove(id),
    {
        self.deadlines.remove(&id);
    }

    /// The earliest deadline across every window, for the event loop to wait until.
    pub fn next_wake(&self) -> (w: Option<u64>)
        ensures
            w is None <==> self.pending().is_empty(),
            w matches Some(d) ==> (exists|id: u64| #[trigger] self.pending().contains_key(id)
                && self.pending()[id] == d) && forall|id: u64| #[trigger] self.pending().contains_key(id)
                ==> d <= self.pending()[id],
    {
        let mut best: Option<u64> = None;
        let m = &self.deadlines;
        for (id, d) in it: m.iter()
            invariant
                self.pending() == m@,
                (best is None) == (it.index() == 0),
                best matches Some(b) ==> exists|k: u64| #[trigger] m@.contains_key(k) && m@[k] == b,
                best matches Some(b) ==> forall|j: int| 0 <= j < it.index() ==> b <= *(#[trigger] it.seq()[j]).1,
        {
            assert(it.seq()[it.index()] == (id, d));
            assert(m@.contains_key(*it.seq()[it.index()].0));
            assert(m@[*it.seq()[it.index()].0] == *it.seq()[it.index()].1);
            best = match best {
                Some(b) => if *d < b { Some(*d) } else { Some(b) },
                None => Some(*d),
            };
        }
        assert(forall|k: u64| #[trigger] m@.contains_key(k) ==> (best matches Some(b) && b <= m@[k]));
        proof {
            if best is None {
                assert(m@.dom() =~= Set::<u64>::empty());
            }
        }
        best
    }

    /// Removes and returns every window whose deadline is at or before `now`.
    pub fn due(&mut self, now: u64) -> (ids: Vec<u64>)
        ensures
            forall|id: u64| #[trigger] ids@.contains(id) <==> (old(self).pending().contains_key(id)
                && old(self).pending()[id] <= now),
            ids@.no_duplicates(),
            final(self).pending() == left_after_due(old(self).pending(), now),
    {
        let ghost start = self.deadlines@;
        let mut ids: Vec<u64> = Vec::new();
        let m = &self.deadlines;
        for (id, d) in it: m.iter()
            invariant
                start == m@,
                it.seq().no_duplicates(),
                ids@.no_duplicates(),
                forall|x: u64| #[trigger] ids@.contains(x) ==> start.contains_key(x) && start[x] <= now
                    && exists|j: int| 0 <= j < it.index() && *(#[trigger] it.seq()[j]).0 == x,
                forall|j: int| 0 <= j < it.index() && *(#[trigger] it.seq()[j]).1 <= now
                    ==> ids@.contains(*it.seq()[j].0),
        {
            assert(it.seq()[it.index()] == (id, d));
            assert(m@.contains_key(*it.seq()[it.index()].0));
            assert(m@[*it.seq()[it.index()].0] == *it.seq()[it.index()].1);
            let ghost before = ids@;
            if *d <= now {
                proof {
                    if before.contains(*id) {
                        let j = choose|j: int| 0 <= j < it.index() && *(#[trigger] it.seq()[j]).0 == *id;
                        assert(m@[*it.seq()[j].0] == *it.seq()[j].1);
                        assert(it.seq()[j] == it.seq()[it.index() as int]);
                        assert(false);
                    }
                }
                ids.push(*id);
                proof {
                    assert(ids@[ids@.len() - 1] == *id);
                    assert forall|x: u64| #[trigger] ids@.contains(x) implies start.contains_key(x) && start[x] <= now
                        && exists|j: int| 0 <= j < it.index() + 1 && *(#[trigger] it.seq()[j]).0 == x by {
                        let t = choose|t: int| 0 <= t < ids@.len() && ids@[t] == x;
                        if t < before.len() {
                            assert(before[t] == x);
                            assert(before.contains(x));
                        } else {
                            assert(*it.seq()[it.index() as int].0 == x);
                        }
                    }
                }
            }
            proof {
                assert forall|x: u64| before.contains(x) implies #[trigger] ids@.contains(x) by {
                    let t = choose|t: int| 0 <= t < before.len() && before[t] == x;
                    assert(ids@[t] == x);
                }
                if *d <= now {
                    assert(ids@.contains(*id));
                }
            }
        }
        assert(forall|x: u64| #[trigger] start.contains_key(x) && start[x] <= now ==> ids@.contains(x));
        let mut i: usize = 0;
        while i < ids.len()
            invariant
                i <= ids@.len(),
                forall|k: u64| #[trigger] self.deadlines@.contains_key(k) <==> start.contains_key(k) && !ids@.take(
                    i as int,
                ).contains(k),
                forall|k: u64| #[trigger] self.deadlines@.contains_key(k) ==> self.deadlines@[k] == start[k],
            decreases ids@.len() - i,
        {
            let ghost before = self.deadlines@;
            self.deadlines.remove(&ids[i]);
            proof {
                let t = ids@.take(i + 1);
                assert(t =~= ids@.take(i as int).push(ids@[i as int]));
                assert forall|k: u64| #[trigger] self.deadlines@.contains_key(k) <==> start.contains_key(k)
                    && !t.contains(k) by {
                    if t.contains(k) && k != ids@[i as int] {
                        let s = choose|s: int| 0 <= s < t.len() && t[s] == k;
                        assert(ids@.take(i as int)[s] == k);
                    }
                    if ids@.take(i as int).contains(k) {
                        let s = choose|s: int| 0 <= s < i && ids@.take(i as int)[s] == k;
                        assert(t[s] == k);
                    }
                    if k == ids@[i as int] {
                        assert(t[i as int] == k);
                    }
                }
            }
            i = i + 1;
        }
        proof {
            assert(ids@.take(ids@.len() as int) =~= ids@);
            let expected = left_after_due(start, now);
            assert(self.deadlines@ =~= expected);
        }
        ids
    }
}

/// The instant the UI wants the next frame, `delay` nanoseconds after `now`, or `None` when
/// that instant does not fit the clock: a UI that asks for nothing reports the largest delay.
pub fn repaint_deadline(now: u64, delay: u128) -> (d: Option<u64>)
    ensures
        now + delay <= u64::MAX ==> d == Some((now + delay) as u64),
        now + delay > u64::MAX ==> d is None,
{
    let max = u64::MAX as u128;
    if delay > max - now as u128 {
        None
    } else {
        Some(((now as u128) + delay) as u64)
    }
}

/// What `due` leaves pending after being called at `now`: only deadlines later than `now`, each
/// as it was, so calling `due` again at `now` finds nothing.
pub open spec fn left_after_due(pending: Map<u64, u64>, now: u64) -> Map<u64, u64> {
    pending.restrict(pending.dom().filter(|id: u64| pending[id] > now))
}

/// Windows that came due are consumed: after `due(now)` nothing pending is due at `now`, and
/// every deadline still pending was pending before with the same value.
pub proof fn lemma_due_consumes(pending: Map<u64, u64>, now: u64)
    ensures
        forall|id: u64| #[trigger] left_after_due(pending, now).contains_key(id) ==> left_after_due(
            pending,
            now,
        )[id] > now && pending.contains_key(id) && pending[id] == left_after_due(pending, now)[id],
{
}

} // verus!
