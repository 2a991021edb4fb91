//! Process-ancestry rules for per-application capture on Windows, where capturing a process
//! captures its whole tree: collapse a process onto its topmost ancestor of the same executable,
//! and collapse reported sessions into one row per executable.
use std::collections::BTreeMap;

use vstd::prelude::*;

use crate::selection::AppKey;

verus! {

broadcast use {vstd::std_specs::btree::group_btree_axioms, vstd::laws_cmp::group_laws_cmp};

/// What a process snapshot says about one process: its parent and its executable's identity.
#[derive(Debug, Clone)]
pub struct ProcessInfo {
    pub parent: u32,
    pub key: AppKey,
}

/// Whether process `id` is in `m` and runs the executable `key`.
pub open spec fn same_app(m: Map<u32, ProcessInfo>, key: Seq<char>, id: u32) -> bool {
    m.contains_key(id) && m[id].key@ == key
}

/// `chain` climbs from `pid` through parents, every step a distinct process of executable `key`.
pub open spec fn is_ancestry(m: Map<u32, ProcessInfo>, key: Seq<char>, pid: u32, chain: Seq<u32>) -> bool {
    &&& chain.len() >= 1
    &&& chain[0] == pid
    &&& forall|i: int| 0 <= i < chain.len() ==> same_app(m, key, #[trigger] chain[i])
    &&& forall|i: int| 0 <= i < chain.len() - 1 ==> #[trigger] chain[i + 1] == m[chain[i]].parent
    &&& chain.no_duplicates()
}

/// The climb cannot continue past the end of `chain`: the parent is unknown, runs another
/// executable, or was already visited.
pub open spec fn climb_ends(m: Map<u32, ProcessInfo>, key: Seq<char>, chain: Seq<u32>) -> bool {
    let parent = m[chain.last()].parent;
    !same_app(m, key, parent) || chain.contains(parent)
}

/// `root` is where the climb from `pid` ends.
pub open spec fn is_application_root(m: Map<u32, ProcessInfo>, key: Seq<char>, pid: u32, root: u32) -> bool {
    exists|chain: Seq<u32>| #[trigger] is_ancestry(m, key, pid, chain) && climb_ends(m, key, chain) && chain.last() == root
}

/// Distinct ids that all have entries cannot outnumber the entries.
proof fn lemma_distinct_ids_bounded<T>(m: Map<u32, T>, chain: Seq<u32>)
    requires
        m.dom().finite(),
        chain.no_duplicates(),
        forall|i: int| 0 <= i < chain.len() ==> m.contains_key(#[trigger] chain[i]),
    ensures
        chain.len() <= m.len(),
{
    chain.unique_seq_to_set();
    assert(chain.to_set().subset_of(m.dom()));
    vstd::set_lib::lemma_len_subset(chain.to_set(), m.dom());
}

/// Two climbs from `pid` agree wherever both reach.
proof fn lemma_common_prefix(m: Map<u32, ProcessInfo>, key: Seq<char>, pid: u32, c1: Seq<u32>, c2: Seq<u32>, n: int)
    requires
        is_ancestry(m, key, pid, c1),
        is_ancestry(m, key, pid, c2),
        0 <= n <= c1.len(),
        n <= c2.len(),
    ensures
        forall|i: int| 0 <= i < n ==> c1[i] == c2[i],
    decreases n,
{
    if n > 1 {
        lemma_common_prefix(m, key, pid, c1, c2, n - 1);
        let i = n - 2;
        assert(c1[i + 1] == m[c1[i]].parent);
        assert(c2[i + 1] == m[c2[i]].parent);
    }
}

/// A climb that ends cannot be a proper prefix of another climb from the same process.
proof fn lemma_no_longer_climb(m: Map<u32, ProcessInfo>, key: Seq<char>, pid: u32, c1: Seq<u32>, c2: Seq<u32>)
    requires
        is_ancestry(m, key, pid, c1),
        climb_ends(m, key, c1),
        is_ancestry(m, key, pid, c2),
    ensures
        c2.len() <= c1.len(),
{
    if c1.len() < c2.len() {
        let n = c1.len() as int;
        lemma_common_prefix(m, key, pid, c1, c2, n);
        let p = c2[n];
        let i = n - 1;
        assert(c2[i + 1] == m[c2[i]].parent);
        assert(c2[n - 1] == c1[n - 1]);
        assert(same_app(m, key, c2[n]));
        assert(c1.contains(p));
        let j = choose|j: int| 0 <= j < c1.len() && c1[j] == p;
        assert(c2[j] == c1[j]);
        assert(c2[j] == c2[n]);
    }
}

/// The climb from a process is deterministic: it ends at one root.
pub proof fn lemma_root_is_unique(m: Map<u32, ProcessInfo>, key: Seq<char>, pid: u32, r1: u32, r2: u32)
    requires
        is_application_root(m, key, pid, r1),
        is_application_root(m, key, pid, r2),
    ensures
        r1 == r2,
{
    let c1 = choose|chain: Seq<u32>| #[trigger] is_ancestry(m, key, pid, chain) && climb_ends(m, key, chain) && chain.last() == r1;
    let c2 = choose|chain: Seq<u32>| #[trigger] is_ancestry(m, key, pid, chain) && climb_ends(m, key, chain) && chain.last() == r2;
    lemma_no_longer_climb(m, key, pid, c1, c2);
    lemma_no_longer_climb(m, key, pid, c2, c1);
    lemma_common_prefix(m, key, pid, c1, c2, c1.len() as int);
    assert(c1[c1.len() - 1] == c2[c2.len() - 1]);
}

/// Finds the topmost ancestor of `pid` that still runs the same executable as `key`. A browser's
/// renderer and its browser parent are captured once, while a differently named launcher stops
/// the climb and keeps independent application instances independent. `None` when `pid` is not
/// in the snapshot or runs another executable: fail closed.
pub fn application_root(pid: u32, key: &AppKey, processes: &BTreeMap<u32, ProcessInfo>) -> (r: Option<u32>)
    ensures
        r is None <==> !same_app(processes@, key@, pid),
        r matches Some(root) ==> is_application_root(processes@, key@, pid, root),
{
    let ghost m = processes@;
    let first = match processes.get(&pid) {
        Some(info) => info,
        None => return None,
    };
    if !first.key.same(key) {
        return None;
    }
    let mut root = pid;
    let mut seen: Vec<u32> = Vec::new();
    seen.push(pid);
    let n = processes.len();
    assert(m.dom().finite());
    assert(is_ancestry(m, key@, pid, seen@));
    loop
        invariant
            m == processes@,
            m.dom().finite(),
            n == m.len(),
            same_app(m, key@, pid),
            is_ancestry(m, key@, pid, seen@),
            seen@.last() == root,
        decreases n - seen@.len(),
    {
        proof {
            assert forall|i: int| 0 <= i < seen@.len() implies m.contains_key(#[trigger] seen@[i]) by {
                assert(same_app(m, key@, seen@[i]));
            }
            lemma_distinct_ids_bounded(m, seen@);
        }
        assert(same_app(m, key@, seen@[seen@.len() - 1]));
        let parent = match processes.get(&root) {
            Some(info) => info.parent,
            None => {
                assert(false);
                return None;
            },
        };
        let parent_same = match processes.get(&parent) {
            Some(info) => info.key.same(key),
            None => false,
        };
        if !parent_same {
            assert(climb_ends(m, key@, seen@));
            return Some(root);
        }
        let mut i: usize = 0;
        let mut visited = false;
        while i < seen.len()
            invariant
                i <= seen@.len(),
                visited == seen@.take(i as int).contains(parent),
            decreases seen@.len() - i,
        {
            let ghost before = seen@.take(i as int);
            let ghost after = seen@.take(i + 1);
            assert(after =~= before.push(seen@[i as int]));
            if seen[i] == parent {
                visited = true;
                assert(after[i as int] == parent);
            } else {
                proof {
                    if before.contains(parent) {
                        let k = choose|k: int| 0 <= k < before.len() && before[k] == parent;
                        assert(after[k] == parent);
                    }
                    if after.contains(parent) {
                        let k = choose|k: int| 0 <= k < after.len() && after[k] == parent;
                        assert(k < i);
                        assert(before[k] == parent);
                    }
                }
            }
            i = i + 1;
        }
        assert(seen@.take(seen@.len() as int) =~= seen@);
        if visited {
            assert(climb_ends(m, key@, seen@));
            return Some(root);
        }
        proof {
            assert(same_app(m, key@, parent));
            assert(m.contains_key(parent));
            assert(seen@.len() < n) by {
                let next = seen@.push(parent);
                assert forall|i: int| 0 <= i < next.len() implies m.contains_key(#[trigger] next[i]) by {
                    if i < seen@.len() {
                        assert(next[i] == seen@[i]);
                        assert(same_app(m, key@, seen@[i]));
                    }
                }
                assert(next.no_duplicates());
                lemma_distinct_ids_bounded(m, next);
            }
        }
        let ghost old_seen = seen@;
        seen.push(parent);
        root = parent;
        proof {
            assert forall|i: int| 0 <= i < seen@.len() - 1 implies #[trigger] seen@[i + 1] == m[seen@[i]].parent by {
                if i < old_seen.len() - 1 {
                    assert(seen@[i + 1] == old_seen[i + 1]);
                    assert(seen@[i] == old_seen[i]);
                }
            }
            assert forall|i: int| 0 <= i < seen@.len() implies same_app(m, key@, #[trigger] seen@[i]) by {
                if i < old_seen.len() {
                    assert(seen@[i] == old_seen[i]);
                }
            }
        }
    }
}

} // verus!
