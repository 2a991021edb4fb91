//! Keeping one process-loopback client per selected process tree on Windows: which running
//! clients to stop and which roots to start when the selection's roots are recomputed, and which
//! start failures are worth a warning.
use vstd::prelude::*;

verus! {

/// Whether `s` holds `x`.
pub open spec fn holds(s: Seq<u32>, x: u32) -> bool {
    exists|i: int| 0 <= i < s.len() && s[i] == x
}

/// The running roots to stop: those no longer desired, and those whose client has finished, in
/// the order they run.
pub open spec fn roots_to_stop(running: Seq<(u32, bool)>, desired: Seq<u32>) -> Seq<u32>
    decreases running.len(),
{
    if running.len() == 0 {
        Seq::empty()
    } else {
        let rest = roots_to_stop(running.drop_last(), desired);
        let (root, finished) = running.last();
        if !holds(desired, root) || finished {
            rest.push(root)
        } else {
            rest
        }
    }
}

/// Whether a live client keeps running for `root` after the stops.
pub open spec fn keeps_running(running: Seq<(u32, bool)>, root: u32) -> bool {
    exists|i: int| 0 <= i < running.len() && running[i].0 == root && !running[i].1
}

/// The desired roots without a client left running, in the order desired.
pub open spec fn roots_to_start(running: Seq<(u32, bool)>, desired: Seq<u32>) -> Seq<u32>
    decreases desired.len(),
{
    if desired.len() == 0 {
        Seq::empty()
    } else {
        let rest = roots_to_start(running, desired.drop_last());
        if keeps_running(running, desired.last()) {
            rest
        } else {
            rest.push(desired.last())
        }
    }
}

/// The failed roots still desired, in their order.
pub open spec fn failures_kept(failed: Seq<u32>, desired: Seq<u32>) -> Seq<u32>
    decreases failed.len(),
{
    if failed.len() == 0 {
        Seq::empty()
    } else {
        let rest = failures_kept(failed.drop_last(), desired);
        if holds(desired, failed.last()) {
            rest.push(failed.last())
        } else {
            rest
        }
    }
}

/// Whether a client runs for `root`, finished or not.
pub open spec fn has_client(running: Seq<(u32, bool)>, root: u32) -> bool {
    exists|i: int| 0 <= i < running.len() && running[i].0 == root
}

/// A root is stopped exactly when a client runs for it that is no longer desired or has finished.
proof fn lemma_stopped_roots(running: Seq<(u32, bool)>, desired: Seq<u32>, root: u32)
    ensures
        holds(roots_to_stop(running, desired), root) <==> exists|i: int| 0 <= i < running.len() && running[i].0
            == root && (!holds(desired, root) || running[i].1),
    decreases running.len(),
{
    if running.len() > 0 {
        let rest = running.drop_last();
        lemma_stopped_roots(rest, desired, root);
        let s = roots_to_stop(running, desired);
        let r = roots_to_stop(rest, desired);
        if holds(s, root) {
            let k = choose|k: int| 0 <= k < s.len() && s[k] == root;
            if k < r.len() {
                assert(s[k] == r[k]);
                assert(holds(r, root));
                let i = choose|i: int| 0 <= i < rest.len() && rest[i].0 == root && (!holds(desired, root) || rest[i].1);
                assert(running[i] == rest[i]);
            } else {
                assert(running[running.len() - 1].0 == root);
            }
        }
        if exists|i: int| 0 <= i < running.len() && running[i].0 == root && (!holds(desired, root) || running[i].1) {
            let i = choose|i: int| 0 <= i < running.len() && running[i].0 == root && (!holds(desired, root) || running[i].1);
            if i < rest.len() {
                assert(rest[i] == running[i]);
                let k = choose|k: int| 0 <= k < r.len() && r[k] == root;
                assert(s[k] == r[k]);
            } else {
                assert(s[s.len() - 1] == root);
            }
        }
    }
}

/// A root is started exactly when it is desired and no live client runs for it.
proof fn lemma_started_roots(running: Seq<(u32, bool)>, desired: Seq<u32>, root: u32)
    ensures
        holds(roots_to_start(running, desired), root) <==> holds(desired, root) && !keeps_running(running, root),
    decreases desired.len(),
{
    if desired.len() > 0 {
        let rest = desired.drop_last();
        lemma_started_roots(running, rest, root);
        let s = roots_to_start(running, desired);
        let r = roots_to_start(running, rest);
        if holds(s, root) {
            let k = choose|k: int| 0 <= k < s.len() && s[k] == root;
            if k < r.len() {
                assert(s[k] == r[k]);
                let j = choose|j: int| 0 <= j < rest.len() && rest[j] == root;
                assert(desired[j] == rest[j]);
            } else {
                assert(desired[desired.len() - 1] == root);
            }
        }
        if holds(desired, root) && !keeps_running(running, root) {
            let j = choose|j: int| 0 <= j < desired.len() && desired[j] == root;
            if j < rest.len() {
                assert(rest[j] == desired[j]);
                let k = choose|k: int| 0 <= k < r.len() && r[k] == root;
                assert(s[k] == r[k]);
            } else {
                assert(s[s.len() - 1] == root);
            }
        }
    }
}

/// A reconcile whose starts all succeed leaves exactly the desired roots with a client, and never
/// starts a second client for a root whose client keeps running. Each root runs one client at
/// most, as a map from root to client holds them.
pub proof fn lemma_reconcile_reaches_the_desired_roots(running: Seq<(u32, bool)>, desired: Seq<u32>, root: u32)
    requires
        forall|i: int, j: int| 0 <= i < running.len() && 0 <= j < running.len() && running[i].0 == running[j].0
            ==> i == j,
    ensures
        (has_client(running, root) && !holds(roots_to_stop(running, desired), root)) || holds(
            roots_to_start(running, desired),
            root,
        ) <==> holds(desired, root),
        !(has_client(running, root) && !holds(roots_to_stop(running, desired), root) && holds(
            roots_to_start(running, desired),
            root,
        )),
{
    lemma_stopped_roots(running, desired, root);
    lemma_started_roots(running, desired, root);
    if has_client(running, root) {
        let i = choose|i: int| 0 <= i < running.len() && running[i].0 == root;
        assert(keeps_running(running, root) == !running[i].1);
    }
}

/// What a reconcile does: the clients to stop, the roots to start, and the failures still worth
/// remembering.
#[derive(Debug, Clone, PartialEq, Eq)]
pub struct ReconcilePlan {
    pub stop: Vec<u32>,
    pub start: Vec<u32>,
    pub failed: Vec<u32>,
}

/// Whether `v` holds `x`.
fn contains(v: &[u32], x: u32) -> (b: bool)
    ensures
        b == holds(v@, x),
{
    let mut i: usize = 0;
    while i < v.len()
        invariant
            i <= v@.len(),
            forall|j: int| 0 <= j < i ==> v@[j] != x,
        decreases v@.len() - i,
    {
        if v[i] == x {
            return true;
        }
        i = i + 1;
    }
    false
}

/// The plan for bringing the running clients (`running`: each root and whether its client has
/// finished) in line with the `desired` roots, given the roots whose start `failed` before.
pub fn plan_reconcile(running: &[(u32, bool)], desired: &[u32], failed: &[u32]) -> (plan: ReconcilePlan)
    ensures
        plan.stop@ == roots_to_stop(running@, desired@),
        plan.start@ == roots_to_start(running@, desired@),
        plan.failed@ == failures_kept(failed@, desired@),
{
    let mut stop: Vec<u32> = Vec::new();
    let mut i: usize = 0;
    while i < running.len()
        invariant
            i <= running@.len(),
            stop@ == roots_to_stop(running@.take(i as int), desired@),
        decreases running@.len() - i,
    {
        let (root, finished) = running[i];
        proof {
            assert(running@.take(i + 1).drop_last() =~= running@.take(i as int));
        }
        if !contains(desired, root) || finished {
            stop.push(root);
        }
        i = i + 1;
    }
    assert(running@.take(running@.len() as int) =~= running@);
    let mut start: Vec<u32> = Vec::new();
    let mut j: usize = 0;
    while j < desired.len()
        invariant
            j <= desired@.len(),
            start@ == roots_to_start(running@, desired@.take(j as int)),
        decreases desired@.len() - j,
    {
        let root = desired[j];
        let mut live = false;
        let mut k: usize = 0;
        while k < running.len()
            invariant
                k <= running@.len(),
                live == exists|t: int| 0 <= t < k && running@[t].0 == root && !running@[t].1,
            decreases running@.len() - k,
        {
            if running[k].0 == root && !running[k].1 {
                live = true;
            }
            k = k + 1;
        }
        proof {
            assert(desired@.take(j + 1).drop_last() =~= desired@.take(j as int));
        }
        if !live {
            start.push(root);
        }
        j = j + 1;
    }
    assert(desired@.take(desired@.len() as int) =~= desired@);
    let mut kept: Vec<u32> = Vec::new();
    let mut f: usize = 0;
    while f < failed.len()
        invariant
            f <= failed@.len(),
            kept@ == failures_kept(failed@.take(f as int), desired@),
        decreases failed@.len() - f,
    {
        let root = failed[f];
        proof {
            assert(failed@.take(f + 1).drop_last() =~= failed@.take(f as int));
        }
        if contains(desired, root) {
            kept.push(root);
        }
        f = f + 1;
    }
    assert(failed@.take(failed@.len() as int) =~= failed@);
    ReconcilePlan { stop, start, failed: kept }
}

/// Records how starting the client for `root` went. A success forgets an earlier failure; a
/// failure is remembered, and is worth a warning only the first time. Returns whether to warn.
pub fn record_start(failed: &mut Vec<u32>, root: u32, started: bool) -> (warn: bool)
    ensures
        started ==> !warn && forall|x: u32| holds(final(failed)@, x) <==> holds(old(failed)@, x) && x != root,
        !started ==> warn == !holds(old(failed)@, root) && forall|x: u32| holds(final(failed)@, x) <==> holds(
            old(failed)@, x) || x == root,
{
    if started {
        let ghost before = failed@;
        let mut rest: Vec<u32> = Vec::new();
        let mut i: usize = 0;
        while i < failed.len()
            invariant
                i <= failed@.len(),
                failed@ == before,
                forall|x: u32| holds(rest@, x) <==> (exists|j: int| 0 <= j < i && before[j] == x) && x != root,
            decreases failed@.len() - i,
        {
            let x = failed[i];
            if x != root {
                let ghost r0 = rest@;
                rest.push(x);
                proof {
                    assert forall|y: u32| holds(rest@, y) <==> (exists|j: int| 0 <= j < i + 1 && before[j] == y) && y != root by {
                        if holds(rest@, y) {
                            let t = choose|t: int| 0 <= t < rest@.len() && rest@[t] == y;
                            if t < r0.len() {
                                assert(holds(r0, y));
                            } else {
                                assert(before[i as int] == y);
                            }
                        }
                        if (exists|j: int| 0 <= j < i + 1 && before[j] == y) && y != root {
                            let j = choose|j: int| 0 <= j < i + 1 && before[j] == y;
                            if j < i {
                                assert(holds(r0, y));
                                let t = choose|t: int| 0 <= t < r0.len() && r0[t] == y;
                                assert(rest@[t] == y);
                            } else {
                                assert(rest@[r0.len() as int] == y);
                            }
                        }
                    }
                }
            } else {
                proof {
                    assert forall|y: u32| holds(rest@, y) <==> (exists|j: int| 0 <= j < i + 1 && before[j] == y) && y != root by {
                        if (exists|j: int| 0 <= j < i + 1 && before[j] == y) && y != root {
                            let j = choose|j: int| 0 <= j < i + 1 && before[j] == y;
                            assert(j < i);
                        }
                    }
                }
            }
            i = i + 1;
        }
        *failed = rest;
        false
    } else {
        let known = contains(failed.as_slice(), root);
        if !known {
            let ghost before = failed@;
            failed.push(root);
            proof {
                assert forall|y: u32| holds(failed@, y) <==> holds(before, y) || y == root by {
                    if holds(failed@, y) {
                        let t = choose|t: int| 0 <= t < failed@.len() && failed@[t] == y;
                        if t < before.len() {
                            assert(before[t] == y);
                        }
                    }
                    if holds(before, y) {
                        let t = choose|t: int| 0 <= t < before.len() && before[t] == y;
                        assert(failed@[t] == y);
                    }
                    if y == root {
                        assert(failed@[before.len() as int] == y);
                    }
                }
            }
        }
        !known
    }
}

} // verus!
