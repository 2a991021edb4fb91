//! Which watched streams have a frame the window has not yet drawn, so a burst of frames on one
//! stream coalesces into a single pending wakeup instead of one event per frame. The program
//! shares one behind a lock between the decode threads and the window.
use vstd::prelude::*;

use crate::tiles::TileKey;

verus! {

/// The set of streams with an undrawn frame. Bounded by the number of active streams, not by how
/// many frames arrived, because marking an already-dirty stream changes nothing.
#[derive(Debug)]
pub struct DirtyStreams {
    pending: Vec<TileKey>,
}

impl View for DirtyStreams {
    type V = Set<TileKey>;

    closed spec fn view(&self) -> Set<TileKey> {
        self.pending@.to_set()
    }
}

impl DirtyStreams {
    /// Each pending stream is listed once.
    pub closed spec fn wf(&self) -> bool {
        self.pending@.no_duplicates()
    }

    /// Nothing pending.
    pub fn new() -> (d: DirtyStreams)
        ensures
            d.wf(),
            d@ == Set::<TileKey>::empty(),
    {
        let d = DirtyStreams { pending: Vec::new() };
        assert(d@ =~= Set::<TileKey>::empty());
        d
    }

    /// Marks `key` dirty. Returns true when this is the transition from nothing pending to
    /// something pending: the caller wakes the event loop exactly then, so a burst of marks
    /// before the next drain sends only one wakeup.
    pub fn mark(&mut self, key: TileKey) -> (was_empty: bool)
        requires
            old(self).wf(),
        ensures
            final(self).wf(),
            final(self)@ == old(self)@.insert(key),
            was_empty == (old(self)@ == Set::<TileKey>::empty()),
    {
        let was_empty = self.pending.len() == 0;
        proof {
            if !was_empty {
                assert(self@.contains(self.pending@[0]));
            } else {
                assert(self@ =~= Set::<TileKey>::empty());
            }
        }
        let mut i: usize = 0;
        while i < self.pending.len()
            invariant
                i <= self.pending@.len(),
                self.wf(),
                was_empty == (self@ == Set::<TileKey>::empty()),
                forall|j: int| 0 <= j < i ==> (#[trigger] self.pending@[j]) != key,
            decreases self.pending@.len() - i,
        {
            if self.pending[i].same(&key) {
                assert(self@.contains(key));
                assert(self@.insert(key) =~= self@);
                return was_empty;
            }
            i = i + 1;
        }
        let ghost before = self.pending@;
        self.pending.push(key);
        proof {
            assert(!before.contains(key));
            assert(self.pending@.to_set() =~= before.to_set().insert(key)) by {
                assert forall|x: TileKey| #[trigger] self.pending@.contains(x) <==> before.contains(x) || x == key by {
                    if self.pending@.contains(x) {
                        let j = choose|j: int| 0 <= j < self.pending@.len() && self.pending@[j] == x;
                        if j < before.len() {
                            assert(before[j] == x);
                        }
                    }
                    if before.contains(x) {
                        let j = choose|j: int| 0 <= j < before.len() && before[j] == x;
                        assert(self.pending@[j] == x);
                    }
                    if x == key {
                        assert(self.pending@[before.len() as int] == key);
                    }
                }
            }
        }
        was_empty
    }

    /// Takes every pending key, each once, leaving nothing pending.
    pub fn drain(&mut self) -> (taken: Vec<TileKey>)
        requires
            old(self).wf(),
        ensures
            final(self).wf(),
            final(self)@ == Set::<TileKey>::empty(),
            taken@.to_set() == old(self)@,
            taken@.no_duplicates(),
    {
        let mut taken: Vec<TileKey> = Vec::new();
        std::mem::swap(&mut taken, &mut self.pending);
        assert(self@ =~= Set::<TileKey>::empty());
        taken
    }

    /// Marking twice before a drain wakes once: whatever was marked first, a second mark never
    /// finds the set empty.
    pub proof fn lemma_marked_is_not_empty(&self, key: TileKey)
        requires
            self.wf(),
            self@.contains(key),
        ensures
            self@ != Set::<TileKey>::empty(),
    {
        assert(!Set::<TileKey>::empty().contains(key));
    }
}

} // verus!
