//! Per-application capture on Windows, past the platform calls: which reported audio sessions
//! count, how they collapse into one listed source per executable, and which process trees a
//! selection captures.
use std::collections::BTreeMap;

use vstd::prelude::*;

use crate::graph::{find_row, source_rows};
use crate::process_tree::{application_root, is_application_root, ProcessInfo};
use crate::selection::{AppKey, AudioSource, KeySet};
use crate::text::{lemma_text_lt_irreflexive, owned, str_eq, text_lt, trim, trimmed};

verus! {

/// One audio session's process: its id, its executable's identity, and the label to show.
#[derive(Debug)]
pub struct SessionProcess {
    pub pid: u32,
    pub key: AppKey,
    pub label: String,
}

/// The label a session shows: what it reported, or its identity when that is blank.
pub open spec fn session_label(reported: Seq<char>, key: Seq<char>) -> Seq<char> {
    if trimmed(reported).len() == 0 {
        key
    } else {
        reported
    }
}

/// The session of process `pid` running `key`, as the listing keeps it: `None` for the idle
/// pseudo-process, for this process, and for any other instance of brp itself.
pub fn session_for(pid: u32, process_id: u32, key: AppKey, own_key: &AppKey, reported_label: &str) -> (r: Option<SessionProcess>)
    ensures
        r is None <==> (pid == 0 || pid == process_id || key@ == own_key@),
        r matches Some(s) ==> s.pid == pid && s.key@ == key@ && s.label@ == session_label(reported_label@, key@),
{
    if pid == 0 || pid == process_id {
        return None;
    }
    if key.same(own_key) {
        return None;
    }
    let blank = trim(reported_label);
    let label = if blank.as_str().unicode_len() == 0 {
        owned(key.as_str())
    } else {
        owned(reported_label)
    };
    Some(SessionProcess { pid, key, label })
}

/// The label each identity of `s` ends up with: its first session's label, replaced by a later
/// one only while it is the bare identity and the later label is not.
pub open spec fn collapsed_labels(s: Seq<(Seq<char>, Seq<char>)>) -> Map<Seq<char>, Seq<char>>
    decreases s.len(),
{
    if s.len() == 0 {
        Map::empty()
    } else {
        let m = collapsed_labels(s.drop_last());
        let (k, label) = s.last();
        if m.contains_key(k) {
            if m[k] == k && label != k {
                m.insert(k, label)
            } else {
                m
            }
        } else {
            m.insert(k, label)
        }
    }
}

/// `rows` lists `m`: each key once, in text order, with its label.
pub open spec fn lists_map(rows: Seq<(Seq<char>, Seq<char>)>, m: Map<Seq<char>, Seq<char>>) -> bool {
    &&& forall|a: int, b: int| 0 <= a < b < rows.len() ==> text_lt(#[trigger] rows[a].0, #[trigger] rows[b].0)
    &&& forall|i: int| 0 <= i < rows.len() ==> m.contains_key(#[trigger] rows[i].0) && m[rows[i].0] == rows[i].1
    &&& forall|k: Seq<char>| #[trigger] m.contains_key(k) ==> exists|i: int| 0 <= i < rows.len() && rows[i].0 == k
}

/// The sessions as identity and label.
pub open spec fn session_rows(s: Seq<SessionProcess>) -> Seq<(Seq<char>, Seq<char>)> {
    s.map_values(|x: SessionProcess| (x.key@, x.label@))
}

/// One row per executable, in identity order. A row takes the first session's label, and a
/// later session's label replaces it only while the row shows the bare identity.
pub fn collapse_sources(sessions: Vec<SessionProcess>) -> (rows: Vec<AudioSource>)
    ensures
        lists_map(source_rows(rows@), collapsed_labels(session_rows(sessions@))),
{
    let ghost all = session_rows(sessions@);
    let mut rows: Vec<AudioSource> = Vec::new();
    let mut i: usize = 0;
    proof {
        assert(all.take(0) =~= Seq::<(Seq<char>, Seq<char>)>::empty());
        assert(source_rows(rows@) =~= Seq::<(Seq<char>, Seq<char>)>::empty());
    }
    while i < sessions.len()
        invariant
            all == session_rows(sessions@),
            i <= sessions@.len(),
            lists_map(source_rows(rows@), collapsed_labels(all.take(i as int))),
        decreases sessions@.len() - i,
    {
        let session = &sessions[i];
        let ghost before = collapsed_labels(all.take(i as int));
        let ghost k = session.key@;
        let ghost l = session.label@;
        proof {
            assert(all.take(i + 1).drop_last() =~= all.take(i as int));
            assert(all.take(i + 1).last() == (k, l));
        }
        let ghost old_rows = source_rows(rows@);
        let (pos, found) = find_row(&rows, &session.key);
        if found {
            let current_is_bare = str_eq(rows[pos].label.as_str(), session.key.as_str());
            let new_is_bare = str_eq(session.label.as_str(), session.key.as_str());
            assert(before[k] == old_rows[pos as int].1);
            if current_is_bare && !new_is_bare {
                let key = rows[pos].key.copy();
                rows.set(pos, AudioSource { key, label: owned(session.label.as_str()) });
                proof {
                    assert(source_rows(rows@) =~= old_rows.update(pos as int, (k, l)));
                    lemma_lists_update(old_rows, before, pos as int, l);
                }
            }
        } else {
            let row = AudioSource { key: session.key.copy(), label: owned(session.label.as_str()) };
            rows.insert(pos, row);
            proof {
                assert(source_rows(rows@) =~= old_rows.insert(pos as int, (k, l)));
                lemma_lists_insert(old_rows, before, pos as int, k, l);
            }
        }
        i = i + 1;
    }
    assert(all.take(sessions@.len() as int) =~= all);
    rows
}

/// Replacing the label of row `pos` lists the map with that label.
proof fn lemma_lists_update(rows: Seq<(Seq<char>, Seq<char>)>, m: Map<Seq<char>, Seq<char>>, pos: int, l: Seq<char>)
    requires
        lists_map(rows, m),
        0 <= pos < rows.len(),
    ensures
        lists_map(rows.update(pos, (rows[pos].0, l)), m.insert(rows[pos].0, l)),
{
    let k = rows[pos].0;
    let r2 = rows.update(pos, (k, l));
    let m2 = m.insert(k, l);
    assert forall|i: int| 0 <= i < r2.len() implies m2.contains_key(#[trigger] r2[i].0) && m2[r2[i].0] == r2[i].1 by {
        if i != pos {
            assert(r2[i] == rows[i]);
            if rows[i].0 == k {
                if i < pos {
                    assert(text_lt(rows[i].0, rows[pos].0));
                } else {
                    assert(text_lt(rows[pos].0, rows[i].0));
                }
                lemma_text_lt_irreflexive(k);
            }
        }
    }
    assert forall|x: Seq<char>| #[trigger] m2.contains_key(x) implies exists|i: int| 0 <= i < r2.len() && r2[i].0 == x by {
        if x == k {
            assert(r2[pos].0 == x);
        } else {
            let i = choose|i: int| 0 <= i < rows.len() && rows[i].0 == x;
            assert(r2[i].0 == x);
        }
    }
}

/// Inserting a row for a key the map lacks, at its place in text order, lists the map with it.
proof fn lemma_lists_insert(rows: Seq<(Seq<char>, Seq<char>)>, m: Map<Seq<char>, Seq<char>>, pos: int, k: Seq<char>, l: Seq<char>)
    requires
        lists_map(rows, m),
        0 <= pos <= rows.len(),
        forall|i: int| 0 <= i < pos ==> text_lt(#[trigger] rows[i].0, k),
        forall|i: int| pos <= i < rows.len() ==> text_lt(k, #[trigger] rows[i].0),
    ensures
        !m.contains_key(k),
        lists_map(rows.insert(pos, (k, l)), m.insert(k, l)),
{
    let r2 = rows.insert(pos, (k, l));
    let m2 = m.insert(k, l);
    if m.contains_key(k) {
        let i = choose|i: int| 0 <= i < rows.len() && rows[i].0 == k;
        lemma_text_lt_irreflexive(k);
    }
    assert forall|a: int, b: int| 0 <= a < b < r2.len() implies text_lt(#[trigger] r2[a].0, #[trigger] r2[b].0) by {
        if a < pos && b < pos {
        } else if a < pos && b == pos {
        } else if a < pos {
            assert(r2[b] == rows[b - 1]);
        } else if a == pos {
            assert(r2[b] == rows[b - 1]);
        } else {
            assert(r2[a] == rows[a - 1]);
            assert(r2[b] == rows[b - 1]);
        }
    }
    assert forall|i: int| 0 <= i < r2.len() implies m2.contains_key(#[trigger] r2[i].0) && m2[r2[i].0] == r2[i].1 by {
        if i < pos {
            assert(r2[i] == rows[i]);
            assert(rows[i].0 != k) by {
                lemma_text_lt_irreflexive(k);
            }
        } else if i > pos {
            assert(r2[i] == rows[i - 1]);
            assert(rows[i - 1].0 != k) by {
                lemma_text_lt_irreflexive(k);
            }
        }
    }
    assert forall|x: Seq<char>| #[trigger] m2.contains_key(x) implies exists|i: int| 0 <= i < r2.len() && r2[i].0 == x by {
        if x == k {
            assert(r2[pos].0 == x);
        } else {
            let i = choose|i: int| 0 <= i < rows.len() && rows[i].0 == x;
            if i < pos {
                assert(r2[i].0 == x);
            } else {
                assert(r2[i + 1].0 == x);
            }
        }
    }
}

/// The roots a selection captures: for each session whose executable is selected, the topmost
/// ancestor process running the same executable. Each root once, in increasing order.
pub fn selected_roots(sessions: &Vec<SessionProcess>, selected: &KeySet, processes: &BTreeMap<u32, ProcessInfo>) -> (roots: Vec<u32>)
    requires
        selected.wf(),
    ensures
        forall|a: int, b: int| 0 <= a < b < roots@.len() ==> roots@[a] < roots@[b],
        forall|r: u32| #[trigger] roots@.contains(r) ==> exists|i: int| 0 <= i < sessions@.len()
            && selected.members().contains(#[trigger] sessions@[i].key@) && is_application_root(
            processes@, sessions@[i].key@, sessions@[i].pid, r),
        forall|i: int| 0 <= i < sessions@.len() && selected.members().contains(#[trigger] sessions@[i].key@)
            ==> forall|r: u32| is_application_root(processes@, sessions@[i].key@, sessions@[i].pid, r)
            ==> roots@.contains(r),
{
    let mut roots: Vec<u32> = Vec::new();
    let mut i: usize = 0;
    while i < sessions.len()
        invariant
            i <= sessions@.len(),
            selected.wf(),
            forall|a: int, b: int| 0 <= a < b < roots@.len() ==> roots@[a] < roots@[b],
            forall|r: u32| #[trigger] roots@.contains(r) ==> exists|j: int| 0 <= j < i
                && selected.members().contains(#[trigger] sessions@[j].key@) && is_application_root(
                processes@, sessions@[j].key@, sessions@[j].pid, r),
            forall|j: int| 0 <= j < i && selected.members().contains(#[trigger] sessions@[j].key@)
                ==> forall|r: u32| is_application_root(processes@, sessions@[j].key@, sessions@[j].pid, r)
                ==> roots@.contains(r),
        decreases sessions@.len() - i,
    {
        let session = &sessions[i];
        if selected.contains(&session.key) {
            match application_root(session.pid, &session.key, processes) {
                Some(root) => {
                    let ghost before = roots@;
                    insert_sorted(&mut roots, root);
                    proof {
                        lemma_root_unique_all(processes@, session.key@, session.pid, root);
                        assert forall|r: u32| #[trigger] roots@.contains(r) implies exists|j: int| 0 <= j < i + 1
                            && selected.members().contains(#[trigger] sessions@[j].key@) && is_application_root(
                            processes@, sessions@[j].key@, sessions@[j].pid, r) by {
                            if r == root {
                                assert(sessions@[i as int].key@ == session.key@);
                            } else {
                                assert(before.contains(r));
                            }
                        }
                    }
                },
                None => {
                    proof {
                        assert forall|r: u32| is_application_root(processes@, session.key@, session.pid, r) implies false by {
                            let chain = choose|chain: Seq<u32>| #[trigger] crate::process_tree::is_ancestry(processes@, session.key@, session.pid, chain) && crate::process_tree::climb_ends(processes@, session.key@, chain) && chain.last() == r;
                            assert(crate::process_tree::same_app(processes@, session.key@, chain[0]));
                        }
                    }
                },
            }
        }
        i = i + 1;
    }
    roots
}

/// Whatever root a climb from `pid` reaches is the one the search found.
proof fn lemma_root_unique_all(m: Map<u32, ProcessInfo>, key: Seq<char>, pid: u32, root: u32)
    requires
        is_application_root(m, key, pid, root),
    ensures
        forall|r: u32| is_application_root(m, key, pid, r) ==> r == root,
{
    assert forall|r: u32| is_application_root(m, key, pid, r) implies r == root by {
        crate::process_tree::lemma_root_is_unique(m, key, pid, r, root);
    }
}

/// Adds `x` to the strictly increasing `v`, unless present.
fn insert_sorted(v: &mut Vec<u32>, x: u32)
    requires
        forall|a: int, b: int| 0 <= a < b < old(v)@.len() ==> old(v)@[a] < old(v)@[b],
    ensures
        forall|a: int, b: int| 0 <= a < b < final(v)@.len() ==> final(v)@[a] < final(v)@[b],
        forall|y: u32| #[trigger] final(v)@.contains(y) <==> old(v)@.contains(y) || y == x,
{
    let mut i: usize = 0;
    while i < v.len() && v[i] < x
        invariant
            i <= v@.len(),
            forall|j: int| 0 <= j < i ==> v@[j] < x,
        decreases v@.len() - i,
    {
        i = i + 1;
    }
    if i < v.len() && v[i] == x {
        return;
    }
    let ghost before = v@;
    v.insert(i, x);
    proof {
        assert forall|a: int, b: int| 0 <= a < b < v@.len() implies v@[a] < v@[b] by {
            if a < i && b < i {
            } else if a < i && b == i {
            } else if a < i {
                assert(v@[b] == before[b - 1]);
            } else if a == i {
                assert(v@[b] == before[b - 1]);
                assert(before[i as int] > x);
                if b - 1 > i {
                    assert(before[i as int] < before[b - 1]);
                }
            } else {
                assert(v@[a] == before[a - 1]);
                assert(v@[b] == before[b - 1]);
            }
        }
        assert forall|y: u32| #[trigger] v@.contains(y) <==> before.contains(y) || y == x by {
            if v@.contains(y) {
                let j = choose|j: int| 0 <= j < v@.len() && v@[j] == y;
                if j < i {
                    assert(before[j] == y);
                } else if j > i {
                    assert(before[j - 1] == y);
                }
            }
            if before.contains(y) {
                let j = choose|j: int| 0 <= j < before.len() && before[j] == y;
                if j < i {
                    assert(v@[j] == y);
                } else {
                    assert(v@[j + 1] == y);
                }
            }
            if y == x {
                assert(v@[i as int] == x);
            }
        }
    }
}

} // verus!
