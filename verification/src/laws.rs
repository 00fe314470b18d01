//! Stated properties of the job lifecycle engine, proved once and for all.
//!
//! The engine's operations are summarised by the step relation [`step`];
//! the lemmas here say what every run of the engine guarantees: the
//! registry invariant holds in every reachable state, pulls are FIFO when
//! nothing is stale, reclaimed work takes precedence over fresh work,
//! pings touch nothing but one heartbeat, and completion reports either
//! discharge an assignment or recycle its path.

use vstd::prelude::*;

verus! {

use crate::registry::{RegistryView, register_spec, ping_spec, intake_spec, complete_spec,
    fail_spec, pull_rel, stale_worker, has_stale, CompleteOutcome,
    lemma_register_preserves_inv, lemma_ping_preserves_inv, lemma_intake_preserves_inv,
    lemma_complete_preserves_inv, lemma_fail_preserves_inv, lemma_pull_preserves_inv};

/// One coordinator operation, with the inputs that drive it.
pub enum RegistryOp {
    /// A worker registers under id `id` at time `now`.
    Register { id: u128, now: u64 },
    /// A heartbeat from worker `id` at time `now`.
    Ping { id: u128, now: u64 },
    /// A pull request from worker `id` at time `now`.
    Pull { id: u128, now: u64 },
    /// A completion report; `output_exists` is the disk check's answer.
    Complete { id: u128, output_exists: bool },
    /// A failure report from worker `id`.
    Fail { id: u128 },
    /// The intake watcher discovered `path`. The operation is valid only
    /// for a path not already tracked: the OS is assumed not to deliver
    /// duplicate creation events for one name.
    Intake { path: Seq<char> },
}

/// The step relation: `post` is a state the operation can leave behind
/// when run in `pre`.
pub open spec fn step(pre: RegistryView, op: RegistryOp, post: RegistryView) -> bool {
    match op {
        RegistryOp::Register { id, now } => post == register_spec(pre, id, now),
        RegistryOp::Ping { id, now } => post == ping_spec(pre, id, now),
        RegistryOp::Pull { id, now } => exists|r: Option<Seq<char>>|
            #[trigger] pull_rel(pre, id, now, post, r),
        RegistryOp::Complete { id, output_exists } => post == complete_spec(
            pre,
            id,
            output_exists,
        ).0,
        RegistryOp::Fail { id } => post == fail_spec(pre, id).0,
        RegistryOp::Intake { path } => !pre.tracks(path) && post == intake_spec(pre, path),
    }
}

/// `post` is reached from `pre` by running `ops` in order.
pub open spec fn runs_to(pre: RegistryView, ops: Seq<RegistryOp>, post: RegistryView) -> bool
    decreases ops.len(),
{
    if ops.len() == 0 {
        post == pre
    } else {
        exists|m: RegistryView| #[trigger] step(pre, ops[0], m) && runs_to(m, ops.drop_first(), post)
    }
}

/// The empty registry satisfies the invariant.
pub proof fn lemma_empty_inv(staleness: u64)
    ensures
        RegistryView::empty_with(staleness).inv(),
{
}

/// Every single operation preserves the registry invariant: in particular
/// no path is ever both pending and assigned (path uniqueness), and every
/// assigned worker is checked in (worker containment).
pub proof fn lemma_step_preserves_inv(pre: RegistryView, op: RegistryOp, post: RegistryView)
    requires
        pre.inv(),
        step(pre, op, post),
    ensures
        post.inv(),
{
    match op {
        RegistryOp::Register { id, now } => lemma_register_preserves_inv(pre, id, now),
        RegistryOp::Ping { id, now } => lemma_ping_preserves_inv(pre, id, now),
        RegistryOp::Pull { id, now } => {
            let r = choose|r: Option<Seq<char>>| #[trigger] pull_rel(pre, id, now, post, r);
            lemma_pull_preserves_inv(pre, id, now, post, r);
        },
        RegistryOp::Complete { id, output_exists } => lemma_complete_preserves_inv(
            pre,
            id,
            output_exists,
        ),
        RegistryOp::Fail { id } => lemma_fail_preserves_inv(pre, id),
        RegistryOp::Intake { path } => lemma_intake_preserves_inv(pre, path),
    }
}

/// Path uniqueness and worker containment hold in every state reachable by
/// valid operations from a state satisfying the invariant — in particular
/// from the empty registry.
pub proof fn lemma_reachable_inv(pre: RegistryView, ops: Seq<RegistryOp>, post: RegistryView)
    requires
        pre.inv(),
        runs_to(pre, ops, post),
    ensures
        post.inv(),
    decreases ops.len(),
{
    if ops.len() > 0 {
        let m = choose|m: RegistryView|
            #[trigger] step(pre, ops[0], m) && runs_to(m, ops.drop_first(), post);
        lemma_step_preserves_inv(pre, ops[0], m);
        lemma_reachable_inv(m, ops.drop_first(), post);
    }
}

/// The same, anchored at startup: any state reached from the empty
/// registry by a sequence of valid operations satisfies the invariant.
pub proof fn lemma_reachable_from_empty(
    staleness: u64,
    ops: Seq<RegistryOp>,
    post: RegistryView,
)
    requires
        runs_to(RegistryView::empty_with(staleness), ops, post),
    ensures
        post.inv(),
{
    lemma_empty_inv(staleness);
    lemma_reachable_inv(RegistryView::empty_with(staleness), ops, post);
}

/// FIFO under no reclaim: when no assignment is stale at either pull, two
/// successive pulls by known workers hand out the first two pending paths
/// in intake order.
pub proof fn lemma_fifo_no_reclaim(
    pre: RegistryView,
    id1: u128,
    now1: u64,
    s1: RegistryView,
    r1: Option<Seq<char>>,
    id2: u128,
    now2: u64,
    s2: RegistryView,
    r2: Option<Seq<char>>,
)
    requires
        pre.check_ins.contains_key(id1),
        pull_rel(pre, id1, now1, s1, r1),
        !has_stale(register_spec(pre, id1, now1), now1),
        s1.check_ins.contains_key(id2),
        pull_rel(s1, id2, now2, s2, r2),
        !has_stale(register_spec(s1, id2, now2), now2),
        pre.pending.len() >= 2,
    ensures
        r1 == Some(pre.pending[0]),
        r2 == Some(pre.pending[1]),
{
    assert(s1.pending == pre.pending.drop_first());
    assert(s1.pending[0] == pre.pending[1]);
}

/// Reclaim precedence: when some assignment is stale at the moment of a
/// pull (after the puller's own heartbeat refresh), the pull hands back a
/// reclaimed path and leaves the pending pool untouched.
pub proof fn lemma_reclaim_precedence(
    pre: RegistryView,
    id: u128,
    now: u64,
    post: RegistryView,
    r: Option<Seq<char>>,
)
    requires
        pre.check_ins.contains_key(id),
        pull_rel(pre, id, now, post, r),
        has_stale(register_spec(pre, id, now), now),
    ensures
        post.pending == pre.pending,
        exists|w: u128| #[trigger] stale_worker(register_spec(pre, id, now), w, now)
            && r == Some(register_spec(pre, id, now).assigned[w]),
{
    let mid = register_spec(pre, id, now);
    let w = choose|w: u128|
        {
            &&& #[trigger] stale_worker(mid, w, now)
            &&& r == Some(mid.assigned[w])
            &&& post.assigned == mid.assigned.remove(w).insert(id, mid.assigned[w])
            &&& post.pending == pre.pending
        };
    assert(stale_worker(mid, w, now) && r == Some(mid.assigned[w]));
}

/// Idempotent ping: a ping on an unknown worker changes nothing at all; a
/// ping on a known worker changes only that worker's heartbeat.
pub proof fn lemma_ping_idempotent(s: RegistryView, id: u128, now: u64)
    ensures
        !s.check_ins.contains_key(id) ==> ping_spec(s, id, now) == s,
        s.check_ins.contains_key(id) ==> {
            let post = ping_spec(s, id, now);
            &&& post.assigned == s.assigned
            &&& post.pending == s.pending
            &&& post.staleness == s.staleness
            &&& post.check_ins.dom() == s.check_ins.dom()
            &&& post.check_ins[id] == now
            &&& forall|w: u128| #[trigger] s.check_ins.contains_key(w) && w != id
                ==> post.check_ins[w] == s.check_ins[w]
        },
{
    if s.check_ins.contains_key(id) {
        assert(ping_spec(s, id, now).check_ins.dom() =~= s.check_ins.dom());
    }
}

/// Push round-trip: a completion report from an assigned worker always
/// removes the assignment; a successful one leaves the pending pool as it
/// was, while a failing one re-enqueues exactly the worker's path at the
/// tail, growing the pool by one.
pub proof fn lemma_complete_roundtrip(s: RegistryView, id: u128, output_exists: bool)
    requires
        s.assigned.contains_key(id),
    ensures
        !complete_spec(s, id, output_exists).0.assigned.contains_key(id),
        complete_spec(s, id, output_exists).0.check_ins == s.check_ins,
        output_exists ==> complete_spec(s, id, output_exists).1 == CompleteOutcome::Completed
            && complete_spec(s, id, output_exists).0.pending == s.pending,
        !output_exists ==> complete_spec(s, id, output_exists).1 == CompleteOutcome::NotYet
            && complete_spec(s, id, output_exists).0.pending == s.pending.push(s.assigned[id])
            && complete_spec(s, id, output_exists).0.pending.len() == s.pending.len() + 1,
{
}

} // verus!
