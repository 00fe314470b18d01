//! The job lifecycle engine.
//!
//! The registry is the coordinator's only shared state: worker heartbeats
//! (`check_ins`), in-flight assignments (`assigned`), and the FIFO pool of
//! pending job paths (`pending`). Every coordinator endpoint mutates state
//! through the operations of this module, and the reaper that reclaims work
//! from silent workers runs inside `pull_for`.
//!
//! Abstractly a state is a [`RegistryView`]: two maps and a sequence of
//! paths. Each operation's contract says exactly how it transforms the view,
//! and every operation preserves the registry invariant: assigned workers
//! are checked in, and no path is tracked twice.

use vstd::prelude::*;

verus! {

use vstd::assert_seqs_equal;
use vstd::map::*;
use crate::assoc::{has_key, map_of, distinct_keys, find_key,
    lemma_value_at, lemma_push_new, lemma_update_value, lemma_remove_entry};

/// The characters of each path in a sequence of path strings.
pub open spec fn path_views(s: Seq<String>) -> Seq<Seq<char>> {
    s.map_values(|p: String| p@)
}

/// The characters of each assigned path, keys untouched.
pub open spec fn entry_views(s: Seq<(u128, String)>) -> Seq<(u128, Seq<char>)> {
    s.map_values(|e: (u128, String)| (e.0, e.1@))
}

pub proof fn lemma_path_views_push(s: Seq<String>, p: String)
    ensures
        path_views(s.push(p)) == path_views(s).push(p@),
{
    assert_seqs_equal!(path_views(s.push(p)), path_views(s).push(p@));
}

proof fn lemma_path_views_remove_first(s: Seq<String>)
    requires
        s.len() > 0,
    ensures
        path_views(s.remove(0)) == path_views(s).drop_first(),
{
    assert_seqs_equal!(path_views(s.remove(0)), path_views(s).drop_first());
}

proof fn lemma_entry_views_push(s: Seq<(u128, String)>, e: (u128, String))
    ensures
        entry_views(s.push(e)) == entry_views(s).push((e.0, e.1@)),
{
    assert_seqs_equal!(entry_views(s.push(e)), entry_views(s).push((e.0, e.1@)));
}

proof fn lemma_entry_views_update(s: Seq<(u128, String)>, i: int, e: (u128, String))
    requires
        0 <= i < s.len(),
    ensures
        entry_views(s.update(i, e)) == entry_views(s).update(i, (e.0, e.1@)),
{
    assert_seqs_equal!(entry_views(s.update(i, e)), entry_views(s).update(i, (e.0, e.1@)));
}

proof fn lemma_entry_views_remove(s: Seq<(u128, String)>, i: int)
    requires
        0 <= i < s.len(),
    ensures
        entry_views(s.remove(i)) == entry_views(s).remove(i),
{
    assert_seqs_equal!(entry_views(s.remove(i)), entry_views(s).remove(i));
}

proof fn lemma_entry_views_keys(s: Seq<(u128, String)>)
    ensures
        forall|k: u128| has_key(entry_views(s), k) <==> has_key(s, k),
        distinct_keys(entry_views(s)) <==> distinct_keys(s),
{
    assert forall|k: u128| has_key(entry_views(s), k) implies has_key(s, k) by {
        let i = choose|i: int| 0 <= i < entry_views(s).len() && entry_views(s)[i].0 == k;
        assert(s[i].0 == k);
    }
    assert forall|k: u128| has_key(s, k) implies has_key(entry_views(s), k) by {
        let i = choose|i: int| 0 <= i < s.len() && s[i].0 == k;
        assert(entry_views(s)[i].0 == k);
    }
    if distinct_keys(s) {
        assert forall|i: int, j: int| 0 <= i < j < entry_views(s).len()
            implies entry_views(s)[i].0 != entry_views(s)[j].0 by {
            assert(s[i].0 != s[j].0);
        }
    }
    if distinct_keys(entry_views(s)) {
        assert forall|i: int, j: int| 0 <= i < j < s.len() implies s[i].0 != s[j].0 by {
            assert(entry_views(s)[i].0 != entry_views(s)[j].0);
        }
    }
}

/// Abstract state of the coordinator: who is checked in and when, which
/// worker holds which path, and the FIFO pool of pending paths.
#[verifier::ext_equal]
pub struct RegistryView {
    /// Worker id to the time of its most recent heartbeat.
    pub check_ins: Map<u128, u64>,
    /// Worker id to the path it is currently converting.
    pub assigned: Map<u128, Seq<char>>,
    /// Paths awaiting assignment, head first.
    pub pending: Seq<Seq<char>>,
    /// Bound on heartbeat age beyond which an assignment may be reclaimed.
    pub staleness: u64,
}

impl RegistryView {
    /// The state right after startup: nothing known, nothing queued.
    pub open spec fn empty_with(staleness: u64) -> RegistryView {
        RegistryView {
            check_ins: Map::empty(),
            assigned: Map::empty(),
            pending: Seq::empty(),
            staleness: staleness,
        }
    }

    /// Worker containment: every key of `assigned` is a key of `check_ins`.
    pub open spec fn workers_contained(self) -> bool {
        forall|w: u128| #[trigger] self.assigned.contains_key(w) ==> self.check_ins.contains_key(w)
    }

    /// Path uniqueness: no path is both pending and assigned, the pending
    /// pool holds no duplicates, and no two workers hold the same path.
    pub open spec fn paths_unique(self) -> bool {
        &&& forall|i: int, w: u128|
            0 <= i < self.pending.len() && #[trigger] self.assigned.contains_key(w)
                ==> #[trigger] self.pending[i] != self.assigned[w]
        &&& forall|i: int, j: int| 0 <= i < j < self.pending.len()
                ==> self.pending[i] != self.pending[j]
        &&& forall|w1: u128, w2: u128|
            #[trigger] self.assigned.contains_key(w1) && #[trigger] self.assigned.contains_key(w2)
                && w1 != w2 ==> self.assigned[w1] != self.assigned[w2]
    }

    /// The registry invariant, maintained by every operation.
    pub open spec fn inv(self) -> bool {
        self.workers_contained() && self.paths_unique()
    }

    /// True when `path` is anywhere in the registry: pending or assigned.
    pub open spec fn tracks(self, path: Seq<char>) -> bool {
        self.pending.contains(path)
            || exists|w: u128| #[trigger] self.assigned.contains_key(w) && self.assigned[w] == path
    }
}

/// A heartbeat at `hb` has gone stale by time `now`.
pub open spec fn is_stale(hb: u64, now: u64, staleness: u64) -> bool {
    now >= hb && now - hb > staleness
}

/// Worker `w` holds an assignment and its heartbeat has gone stale.
pub open spec fn stale_worker(s: RegistryView, w: u128, now: u64) -> bool {
    s.assigned.contains_key(w) && s.check_ins.contains_key(w)
        && is_stale(s.check_ins[w], now, s.staleness)
}

/// Some assignment is reclaimable at time `now`.
pub open spec fn has_stale(s: RegistryView, now: u64) -> bool {
    exists|w: u128| stale_worker(s, w, now)
}

/// Registration: record (or refresh) the worker's heartbeat.
pub open spec fn register_spec(s: RegistryView, id: u128, now: u64) -> RegistryView {
    RegistryView { check_ins: s.check_ins.insert(id, now), ..s }
}

/// Heartbeat: refresh a known worker; silently ignore an unknown one.
pub open spec fn ping_spec(s: RegistryView, id: u128, now: u64) -> RegistryView {
    if s.check_ins.contains_key(id) {
        RegistryView { check_ins: s.check_ins.insert(id, now), ..s }
    } else {
        s
    }
}

/// Intake: append a newly discovered path to the tail of the pending pool.
pub open spec fn intake_spec(s: RegistryView, path: Seq<char>) -> RegistryView {
    RegistryView { pending: s.pending.push(path), ..s }
}

/// What a pull did: `pre` to `post` handing out `r`.
///
/// An unknown worker gets nothing and changes nothing. A known worker first
/// has its own heartbeat refreshed; then a reclaimed path is preferred over
/// a fresh one, and the head of the pending pool is handed out only when no
/// assignment is stale. Which stale worker is the victim is left open.
pub open spec fn pull_rel(
    pre: RegistryView,
    id: u128,
    now: u64,
    post: RegistryView,
    r: Option<Seq<char>>,
) -> bool {
    if !pre.check_ins.contains_key(id) {
        post == pre && r is None
    } else {
        let mid = register_spec(pre, id, now);
        {
            &&& post.check_ins == mid.check_ins
            &&& post.staleness == pre.staleness
            &&& if has_stale(mid, now) {
                exists|w: u128|
                    {
                        &&& #[trigger] stale_worker(mid, w, now)
                        &&& r == Some(mid.assigned[w])
                        &&& post.assigned == mid.assigned.remove(w).insert(id, mid.assigned[w])
                        &&& post.pending == pre.pending
                    }
            } else if pre.pending.len() > 0 {
                &&& r == Some(pre.pending[0])
                &&& post.assigned == pre.assigned.insert(id, pre.pending[0])
                &&& post.pending == pre.pending.drop_first()
            } else {
                &&& r is None
                &&& post.assigned == pre.assigned
                &&& post.pending == pre.pending
            }
        }
    }
}

/// Outcome of a completion report.
#[derive(Clone, Copy, Debug, PartialEq, Eq, Structural)]
pub enum CompleteOutcome {
    /// The expected output file existed: the assignment is discharged.
    Completed,
    /// The reporting worker held no assignment.
    Missing,
    /// The output file was absent: the path went back to the pending tail.
    NotYet,
}

/// Completion: discharge the worker's assignment if the expected output
/// file exists, otherwise re-enqueue its path at the tail.
pub open spec fn complete_spec(s: RegistryView, id: u128, output_exists: bool) -> (
    RegistryView,
    CompleteOutcome,
) {
    if !s.assigned.contains_key(id) {
        (s, CompleteOutcome::Missing)
    } else if output_exists {
        (RegistryView { assigned: s.assigned.remove(id), ..s }, CompleteOutcome::Completed)
    } else {
        (
            RegistryView {
                assigned: s.assigned.remove(id),
                pending: s.pending.push(s.assigned[id]),
                ..s
            },
            CompleteOutcome::NotYet,
        )
    }
}

/// Failure report: forget a known worker and recycle its assignment; the
/// boolean says whether the worker was known.
pub open spec fn fail_spec(s: RegistryView, id: u128) -> (RegistryView, bool) {
    if !s.check_ins.contains_key(id) {
        (s, false)
    } else if s.assigned.contains_key(id) {
        (
            RegistryView {
                check_ins: s.check_ins.remove(id),
                assigned: s.assigned.remove(id),
                pending: s.pending.push(s.assigned[id]),
                ..s
            },
            true,
        )
    } else {
        (RegistryView { check_ins: s.check_ins.remove(id), ..s }, true)
    }
}

/// The path views of an optional result.
pub open spec fn opt_path_view(r: Option<String>) -> Option<Seq<char>> {
    match r {
        Some(p) => Some(p@),
        None => None,
    }
}

/// The in-memory registry: the three tables behind the coordinator.
pub struct Registry {
    check_ins: Vec<(u128, u64)>,
    assigned: Vec<(u128, String)>,
    pending: Vec<String>,
    staleness: u64,
}

impl View for Registry {
    type V = RegistryView;

    closed spec fn view(&self) -> RegistryView {
        RegistryView {
            check_ins: map_of(self.check_ins@),
            assigned: map_of(entry_views(self.assigned@)),
            pending: path_views(self.pending@),
            staleness: self.staleness,
        }
    }
}

impl Registry {
    /// Well-formed representation: both tables carry distinct keys and the
    /// abstract state satisfies the registry invariant.
    pub closed spec fn wf(&self) -> bool {
        &&& distinct_keys(self.check_ins@)
        &&& distinct_keys(self.assigned@)
        &&& self@.inv()
    }

    /// A fresh registry with the given staleness bound (in the same time
    /// unit the caller passes as `now` to the other operations).
    pub fn new(staleness: u64) -> (r: Registry)
        ensures
            r.wf(),
            r@ == RegistryView::empty_with(staleness),
    {
        let r = Registry {
            check_ins: Vec::new(),
            assigned: Vec::new(),
            pending: Vec::new(),
            staleness: staleness,
        };
        proof {
            assert(r@.check_ins =~= Map::empty());
            assert(r@.assigned =~= Map::empty());
            assert(r@.pending =~= Seq::empty());
            assert(r@ =~= RegistryView::empty_with(staleness));
        }
        r
    }

    /// The staleness bound this registry was created with.
    pub fn staleness_bound(&self) -> (r: u64)
        ensures
            r == self@.staleness,
    {
        self.staleness
    }

    /// Record a worker under `id`, checked in at `now`.
    pub fn register(&mut self, id: u128, now: u64)
        requires
            old(self).wf(),
        ensures
            final(self).wf(),
            final(self)@ == register_spec(old(self)@, id, now),
    {
        self.ci_insert(id, now);
        proof {
            lemma_register_preserves_inv(old(self)@, id, now);
            assert(final(self)@ =~= register_spec(old(self)@, id, now));
        }
    }

    /// Refresh a known worker's heartbeat; ignore an unknown worker.
    pub fn ping(&mut self, id: u128, now: u64)
        requires
            old(self).wf(),
        ensures
            final(self).wf(),
            final(self)@ == ping_spec(old(self)@, id, now),
    {
        match find_key(&self.check_ins, id) {
            Some(i) => {
                proof {
                    lemma_value_at(self.check_ins@, i as int);
                }
                self.check_ins[i] = (id, now);
                proof {
                    lemma_update_value(old(self).check_ins@, i as int, id, now);
                    lemma_ping_preserves_inv(old(self)@, id, now);
                    assert(final(self)@ =~= ping_spec(old(self)@, id, now));
                }
            },
            None => {
                proof {
                    assert(final(self)@ =~= ping_spec(old(self)@, id, now));
                }
            },
        }
    }

    /// Insert or overwrite `id` in the check-in table.
    fn ci_insert(&mut self, id: u128, now: u64)
        requires
            distinct_keys(old(self).check_ins@),
        ensures
            distinct_keys(final(self).check_ins@),
            final(self).check_ins@.len() <= old(self).check_ins@.len() + 1,
            map_of(final(self).check_ins@) == map_of(old(self).check_ins@).insert(id, now),
            final(self).assigned == old(self).assigned,
            final(self).pending == old(self).pending,
            final(self).staleness == old(self).staleness,
    {
        match find_key(&self.check_ins, id) {
            Some(i) => {
                proof {
                    lemma_value_at(self.check_ins@, i as int);
                }
                self.check_ins[i] = (id, now);
                proof {
                    lemma_update_value(old(self).check_ins@, i as int, id, now);
                }
            },
            None => {
                self.check_ins.push((id, now));
                proof {
                    lemma_push_new(old(self).check_ins@, id, now);
                }
            },
        }
    }

    /// Insert or overwrite `id` in the assignment table.
    fn asg_insert(&mut self, id: u128, path: String)
        requires
            distinct_keys(old(self).assigned@),
        ensures
            distinct_keys(final(self).assigned@),
            map_of(entry_views(final(self).assigned@))
                == map_of(entry_views(old(self).assigned@)).insert(id, path@),
            final(self).check_ins == old(self).check_ins,
            final(self).pending == old(self).pending,
            final(self).staleness == old(self).staleness,
    {
        proof {
            lemma_entry_views_keys(old(self).assigned@);
        }
        match find_key(&self.assigned, id) {
            Some(i) => {
                self.assigned[i] = (id, path);
                proof {
                    lemma_entry_views_update(old(self).assigned@, i as int, final(self).assigned@[i as int]);
                    lemma_entry_views_keys(final(self).assigned@);
                    assert(entry_views(old(self).assigned@)[i as int].0 == id);
                    lemma_update_value(entry_views(old(self).assigned@), i as int, id,
                        entry_views(final(self).assigned@)[i as int].1);
                    assert(entry_views(final(self).assigned@)
                        =~= entry_views(old(self).assigned@).update(i as int,
                            (id, entry_views(final(self).assigned@)[i as int].1)));
                }
            },
            None => {
                self.assigned.push((id, path));
                proof {
                    lemma_entry_views_push(old(self).assigned@, final(self).assigned@.last());
                    lemma_entry_views_keys(final(self).assigned@);
                    lemma_push_new(entry_views(old(self).assigned@), id,
                        final(self).assigned@.last().1@);
                }
            },
        }
    }

    /// Whether `path` is anywhere in the registry: pending or assigned.
    pub fn tracks_path(&self, path: &String) -> (r: bool)
        requires
            self.wf(),
        ensures
            r == self@.tracks(path@),
    {
        let mut i: usize = 0;
        while i < self.pending.len()
            invariant
                self.wf(),
                i <= self.pending.len(),
                forall|j: int| 0 <= j < i ==> self.pending@[j]@ != path@,
            decreases self.pending.len() - i,
        {
            if self.pending[i] == *path {
                proof {
                    assert(self@.pending[i as int] == path@);
                }
                return true;
            }
            i += 1;
        }
        let mut j: usize = 0;
        while j < self.assigned.len()
            invariant
                self.wf(),
                j <= self.assigned.len(),
                forall|k: int| 0 <= k < j ==> self.assigned@[k].1@ != path@,
            decreases self.assigned.len() - j,
        {
            if self.assigned[j].1 == *path {
                proof {
                    lemma_entry_views_keys(self.assigned@);
                    lemma_value_at(entry_views(self.assigned@), j as int);
                    assert(self@.assigned.contains_key(self.assigned@[j as int].0));
                    assert(self@.assigned[self.assigned@[j as int].0] == path@);
                }
                return true;
            }
            j += 1;
        }
        proof {
            if self@.pending.contains(path@) {
                let i0 = choose|i0: int|
                    0 <= i0 < self@.pending.len() && self@.pending[i0] == path@;
                assert(self.pending@[i0]@ == path@);
                assert(false);
            }
            if exists|w: u128| #[trigger] self@.assigned.contains_key(w)
                && self@.assigned[w] == path@ {
                let w = choose|w: u128| #[trigger] self@.assigned.contains_key(w)
                    && self@.assigned[w] == path@;
                lemma_entry_views_keys(self.assigned@);
                let k = choose|k: int|
                    0 <= k < self.assigned@.len() && self.assigned@[k].0 == w;
                lemma_value_at(entry_views(self.assigned@), k);
                assert(self.assigned@[k].1@ == path@);
                assert(false);
            }
        }
        false
    }

    /// Append a newly discovered path to the pending tail, unless the
    /// registry already tracks it (the watcher's duplicate-event guard).
    pub fn intake(&mut self, path: String) -> (r: bool)
        requires
            old(self).wf(),
        ensures
            final(self).wf(),
            r == !old(self)@.tracks(path@),
            r ==> final(self)@ == intake_spec(old(self)@, path@),
            !r ==> final(self)@ == old(self)@,
    {
        if self.tracks_path(&path) {
            false
        } else {
            proof {
                lemma_intake_preserves_inv(self@, path@);
            }
            self.pending.push(path);
            proof {
                lemma_path_views_push(old(self).pending@, final(self).pending@.last());
                assert(final(self)@ =~= intake_spec(old(self)@, final(self).pending@.last()@));
            }
            true
        }
    }

    /// A copy of the pending pool, head first, for the index view.
    pub fn snapshot_pending(&self) -> (r: Vec<String>)
        ensures
            path_views(r@) == self@.pending,
    {
        let mut out: Vec<String> = Vec::new();
        let mut i: usize = 0;
        while i < self.pending.len()
            invariant
                i <= self.pending.len(),
                out@.len() == i,
                forall|j: int| 0 <= j < i ==> out@[j]@ == self.pending@[j]@,
            decreases self.pending.len() - i,
        {
            out.push(self.pending[i].clone());
            i += 1;
        }
        proof {
            assert_seqs_equal!(path_views(out@), path_views(self.pending@));
        }
        out
    }

    /// The path assigned to `id`, if any.
    pub fn assigned_path(&self, id: u128) -> (r: Option<String>)
        requires
            self.wf(),
        ensures
            match r {
                Some(p) => self@.assigned.contains_key(id) && p@ == self@.assigned[id],
                None => !self@.assigned.contains_key(id),
            },
    {
        proof {
            lemma_entry_views_keys(self.assigned@);
        }
        match find_key(&self.assigned, id) {
            Some(i) => {
                proof {
                    lemma_value_at(entry_views(self.assigned@), i as int);
                }
                Some(self.assigned[i].1.clone())
            },
            None => None,
        }
    }

    /// Whether `id` is checked in.
    pub fn is_known(&self, id: u128) -> (r: bool)
        ensures
            r == self@.check_ins.contains_key(id),
    {
        match find_key(&self.check_ins, id) {
            Some(i) => {
                proof {
                    assert(has_key(self.check_ins@, id));
                }
                true
            },
            None => false,
        }
    }

    /// Completion report from worker `id`. The caller has checked the disk
    /// for the expected output file and passes the answer as
    /// `output_exists`; the registry discharges or recycles the assignment
    /// as [`complete_spec`] says.
    pub fn complete_for(&mut self, id: u128, output_exists: bool) -> (r: CompleteOutcome)
        requires
            old(self).wf(),
        ensures
            final(self).wf(),
            final(self)@ == complete_spec(old(self)@, id, output_exists).0,
            r == complete_spec(old(self)@, id, output_exists).1,
    {
        proof {
            lemma_entry_views_keys(self.assigned@);
            lemma_complete_preserves_inv(self@, id, output_exists);
        }
        match find_key(&self.assigned, id) {
            None => CompleteOutcome::Missing,
            Some(i) => {
                proof {
                    lemma_value_at(entry_views(self.assigned@), i as int);
                    lemma_entry_views_remove(self.assigned@, i as int);
                    lemma_remove_entry(entry_views(self.assigned@), i as int);
                    lemma_remove_entry(self.assigned@, i as int);
                }
                let entry = self.assigned.remove(i);
                if output_exists {
                    proof {
                        assert(self@ =~= complete_spec(old(self)@, id, output_exists).0);
                    }
                    CompleteOutcome::Completed
                } else {
                    proof {
                        lemma_path_views_push(self.pending@, entry.1);
                    }
                    self.pending.push(entry.1);
                    proof {
                        assert(self@ =~= complete_spec(old(self)@, id, output_exists).0);
                    }
                    CompleteOutcome::NotYet
                }
            },
        }
    }

    /// Failure report from worker `id`: forget the worker and recycle its
    /// assignment. Returns whether the worker was known.
    pub fn fail_for(&mut self, id: u128) -> (r: bool)
        requires
            old(self).wf(),
        ensures
            final(self).wf(),
            final(self)@ == fail_spec(old(self)@, id).0,
            r == fail_spec(old(self)@, id).1,
    {
        proof {
            lemma_entry_views_keys(self.assigned@);
            lemma_fail_preserves_inv(self@, id);
        }
        match find_key(&self.check_ins, id) {
            None => {
                proof {
                    assert(final(self)@ =~= fail_spec(old(self)@, id).0);
                }
                false
            },
            Some(i) => {
                proof {
                    lemma_value_at(self.check_ins@, i as int);
                    lemma_remove_entry(self.check_ins@, i as int);
                }
                self.check_ins.remove(i);
                match find_key(&self.assigned, id) {
                    None => {
                        proof {
                            assert(self@ =~= fail_spec(old(self)@, id).0);
                        }
                        true
                    },
                    Some(j) => {
                        proof {
                            lemma_value_at(entry_views(self.assigned@), j as int);
                            lemma_entry_views_remove(self.assigned@, j as int);
                            lemma_remove_entry(entry_views(self.assigned@), j as int);
                            lemma_remove_entry(self.assigned@, j as int);
                        }
                        let entry = self.assigned.remove(j);
                        proof {
                            lemma_path_views_push(self.pending@, entry.1);
                        }
                        self.pending.push(entry.1);
                        proof {
                            assert(self@ =~= fail_spec(old(self)@, id).0);
                        }
                        true
                    },
                }
            },
        }
    }

    /// Pull request from worker `id` at time `now`.
    ///
    /// An unknown worker gets nothing. Otherwise the worker's own heartbeat
    /// is refreshed first; then the reaper looks for a stale assignment to
    /// reclaim, and only when none exists is the head of the pending pool
    /// handed out.
    pub fn pull_for(&mut self, id: u128, now: u64) -> (r: Option<String>)
        requires
            old(self).wf(),
        ensures
            final(self).wf(),
            pull_rel(old(self)@, id, now, final(self)@, opt_path_view(r)),
    {
        let ghost pre = self@;
        match find_key(&self.check_ins, id) {
            None => {
                proof {
                    assert(!pre.check_ins.contains_key(id));
                }
                return None;
            },
            Some(i) => {
                proof {
                    lemma_value_at(self.check_ins@, i as int);
                    lemma_update_value(self.check_ins@, i as int, id, now);
                }
                self.check_ins[i] = (id, now);
            },
        }
        let ghost mid = register_spec(pre, id, now);
        proof {
            assert(self@ =~= mid);
            lemma_register_preserves_inv(pre, id, now);
        }
        let ghost a0 = self.assigned@;
        let ghost c0 = self.check_ins@;
        let mut j: usize = 0;
        while j < self.assigned.len()
            invariant
                self.wf(),
                self@ == mid,
                pre == old(self)@,
                mid == register_spec(pre, id, now),
                pre.inv(),
                pre.check_ins.contains_key(id),
                self.assigned@ == a0,
                self.check_ins@ == c0,
                j <= self.assigned.len(),
                forall|jj: int| 0 <= jj < j ==> !stale_worker(mid, a0[jj].0, now),
            decreases self.assigned.len() - j,
        {
            let w = self.assigned[j].0;
            proof {
                lemma_entry_views_keys(a0);
                lemma_value_at(entry_views(a0), j as int);
                assert(mid.assigned.contains_key(w));
            }
            match find_key(&self.check_ins, w) {
                None => {
                    proof {
                        assert(mid.check_ins.contains_key(w));
                        assert(false);
                    }
                },
                Some(ci_idx) => {
                    proof {
                        lemma_value_at(c0, ci_idx as int);
                    }
                    let hb = self.check_ins[ci_idx].1;
                    if now >= hb && now - hb > self.staleness {
                        proof {
                            assert(mid.check_ins[w] == hb);
                            assert(stale_worker(mid, w, now));
                            lemma_entry_views_remove(a0, j as int);
                            lemma_remove_entry(entry_views(a0), j as int);
                            lemma_remove_entry(a0, j as int);
                        }
                        let entry = self.assigned.remove(j);
                        let handed = entry.1.clone();
                        self.asg_insert(id, entry.1);
                        proof {
                            let post = self@;
                            assert(entry_views(a0)[j as int] == (a0[j as int].0, a0[j as int].1@));
                            assert(mid.assigned[w] == a0[j as int].1@);
                            assert(handed@ == a0[j as int].1@);
                            assert(post.pending =~= pre.pending);
                            assert(post.assigned
                                =~= mid.assigned.remove(w).insert(id, mid.assigned[w]));
                            assert(stale_worker(mid, w, now)
                                && opt_path_view(Some(handed)) == Some(mid.assigned[w])
                                && post.assigned == mid.assigned.remove(w).insert(id, mid.assigned[w])
                                && post.pending == pre.pending);
                            assert(pull_rel(pre, id, now, post, opt_path_view(Some(handed))));
                            lemma_pull_preserves_inv(pre, id, now, post, opt_path_view(Some(handed)));
                            lemma_entry_views_keys(self.assigned@);
                        }
                        return Some(handed);
                    }
                },
            }
            j += 1;
        }
        proof {
            assert forall|w: u128| !stale_worker(mid, w, now) by {
                if stale_worker(mid, w, now) {
                    lemma_entry_views_keys(a0);
                    let k = choose|k: int| 0 <= k < a0.len() && a0[k].0 == w;
                    assert(!stale_worker(mid, a0[k].0, now));
                }
            }
            assert(!has_stale(mid, now));
        }
        if self.pending.len() > 0 {
            proof {
                lemma_path_views_remove_first(self.pending@);
            }
            let head = self.pending.remove(0);
            let handed = head.clone();
            self.asg_insert(id, head);
            proof {
                let post = self@;
                assert(post.pending =~= pre.pending.drop_first());
                assert(post.assigned =~= pre.assigned.insert(id, pre.pending[0]));
                assert(pull_rel(pre, id, now, post, opt_path_view(Some(handed))));
                lemma_pull_preserves_inv(pre, id, now, post, opt_path_view(Some(handed)));
            }
            Some(handed)
        } else {
            proof {
                assert(self@.assigned =~= pre.assigned);
                assert(self@.pending =~= pre.pending);
                assert(pull_rel(pre, id, now, self@, opt_path_view(None::<String>)));
                lemma_pull_preserves_inv(pre, id, now, self@, opt_path_view(None::<String>));
            }
            None
        }
    }
}

/// Registration preserves the registry invariant.
pub proof fn lemma_register_preserves_inv(s: RegistryView, id: u128, now: u64)
    requires
        s.inv(),
    ensures
        register_spec(s, id, now).inv(),
{
}

/// A ping preserves the registry invariant.
pub proof fn lemma_ping_preserves_inv(s: RegistryView, id: u128, now: u64)
    requires
        s.inv(),
    ensures
        ping_spec(s, id, now).inv(),
{
}

/// Intake of a path not yet tracked preserves the registry invariant.
pub proof fn lemma_intake_preserves_inv(s: RegistryView, path: Seq<char>)
    requires
        s.inv(),
        !s.tracks(path),
    ensures
        intake_spec(s, path).inv(),
{
    let post = intake_spec(s, path);
    assert forall|i: int, w: u128|
        0 <= i < post.pending.len() && #[trigger] post.assigned.contains_key(w)
        implies #[trigger] post.pending[i] != post.assigned[w] by {
        if i == s.pending.len() {
            assert(post.pending[i] == path);
            assert(s.assigned.contains_key(w) && s.assigned[w] == path ==> s.tracks(path));
        } else {
            assert(s.pending[i] != s.assigned[w]);
        }
    }
    assert forall|i: int, j: int| 0 <= i < j < post.pending.len()
        implies post.pending[i] != post.pending[j] by {
        if j == s.pending.len() {
            assert(!s.pending.contains(path));
            assert(s.pending[i] != path);
        } else {
            assert(s.pending[i] != s.pending[j]);
        }
    }
}

/// A completion report preserves the registry invariant.
pub proof fn lemma_complete_preserves_inv(s: RegistryView, id: u128, output_exists: bool)
    requires
        s.inv(),
    ensures
        complete_spec(s, id, output_exists).0.inv(),
{
    let post = complete_spec(s, id, output_exists).0;
    if s.assigned.contains_key(id) && !output_exists {
        let p = s.assigned[id];
        assert forall|i: int, w: u128|
            0 <= i < post.pending.len() && #[trigger] post.assigned.contains_key(w)
            implies #[trigger] post.pending[i] != post.assigned[w] by {
            assert(w != id);
            assert(s.assigned.contains_key(w));
            if i == s.pending.len() {
                assert(post.pending[i] == p);
                assert(s.assigned[w] != s.assigned[id]);
            } else {
                assert(s.pending[i] != s.assigned[w]);
            }
        }
        assert forall|i: int, j: int| 0 <= i < j < post.pending.len()
            implies post.pending[i] != post.pending[j] by {
            if j == s.pending.len() {
                assert(s.pending[i] != s.assigned[id]);
            } else {
                assert(s.pending[i] != s.pending[j]);
            }
        }
    }
}

/// A failure report preserves the registry invariant.
pub proof fn lemma_fail_preserves_inv(s: RegistryView, id: u128)
    requires
        s.inv(),
    ensures
        fail_spec(s, id).0.inv(),
{
    let post = fail_spec(s, id).0;
    if s.check_ins.contains_key(id) && s.assigned.contains_key(id) {
        let p = s.assigned[id];
        assert forall|i: int, w: u128|
            0 <= i < post.pending.len() && #[trigger] post.assigned.contains_key(w)
            implies #[trigger] post.pending[i] != post.assigned[w] by {
            assert(w != id);
            assert(s.assigned.contains_key(w));
            if i == s.pending.len() {
                assert(s.assigned[w] != s.assigned[id]);
            } else {
                assert(s.pending[i] != s.assigned[w]);
            }
        }
        assert forall|i: int, j: int| 0 <= i < j < post.pending.len()
            implies post.pending[i] != post.pending[j] by {
            if j == s.pending.len() {
                assert(s.pending[i] != s.assigned[id]);
            } else {
                assert(s.pending[i] != s.pending[j]);
            }
        }
    }
}

/// A pull preserves the registry invariant, whichever path it hands out.
pub proof fn lemma_pull_preserves_inv(
    pre: RegistryView,
    id: u128,
    now: u64,
    post: RegistryView,
    r: Option<Seq<char>>,
)
    requires
        pre.inv(),
        pull_rel(pre, id, now, post, r),
    ensures
        post.inv(),
{
    if pre.check_ins.contains_key(id) {
        let mid = register_spec(pre, id, now);
        if has_stale(mid, now) {
            let w = choose|w: u128|
                {
                    &&& #[trigger] stale_worker(mid, w, now)
                    &&& r == Some(mid.assigned[w])
                    &&& post.assigned == mid.assigned.remove(w).insert(id, mid.assigned[w])
                    &&& post.pending == pre.pending
                };
            let p = mid.assigned[w];
            assert(mid.check_ins[id] == now);
            assert(w != id);
            assert forall|w2: u128| #[trigger] post.assigned.contains_key(w2)
                implies post.check_ins.contains_key(w2) by {
                if w2 != id {
                    assert(pre.assigned.contains_key(w2));
                }
            }
            assert forall|i: int, w2: u128|
                0 <= i < post.pending.len() && #[trigger] post.assigned.contains_key(w2)
                implies #[trigger] post.pending[i] != post.assigned[w2] by {
                if w2 == id {
                    assert(post.assigned[w2] == pre.assigned[w]);
                    assert(pre.pending[i] != pre.assigned[w]);
                } else {
                    assert(pre.assigned.contains_key(w2));
                    assert(pre.pending[i] != pre.assigned[w2]);
                }
            }
            assert forall|w1: u128, w2: u128|
                #[trigger] post.assigned.contains_key(w1) && #[trigger] post.assigned.contains_key(w2)
                    && w1 != w2 implies post.assigned[w1] != post.assigned[w2] by {
                if w1 == id {
                    assert(post.assigned[w1] == pre.assigned[w]);
                    assert(pre.assigned.contains_key(w2) && w2 != w);
                    assert(pre.assigned[w] != pre.assigned[w2]);
                } else if w2 == id {
                    assert(post.assigned[w2] == pre.assigned[w]);
                    assert(pre.assigned.contains_key(w1) && w1 != w);
                    assert(pre.assigned[w] != pre.assigned[w1]);
                } else {
                    assert(pre.assigned.contains_key(w1) && pre.assigned.contains_key(w2));
                    assert(pre.assigned[w1] != pre.assigned[w2]);
                }
            }
        } else if pre.pending.len() > 0 {
            let p = pre.pending[0];
            assert forall|i: int, w2: u128|
                0 <= i < post.pending.len() && #[trigger] post.assigned.contains_key(w2)
                implies #[trigger] post.pending[i] != post.assigned[w2] by {
                assert(post.pending[i] == pre.pending[i + 1]);
                if w2 == id {
                    assert(pre.pending[i + 1] != pre.pending[0]);
                } else {
                    assert(pre.assigned.contains_key(w2));
                    assert(pre.pending[i + 1] != pre.assigned[w2]);
                }
            }
            assert forall|i: int, j: int| 0 <= i < j < post.pending.len()
                implies post.pending[i] != post.pending[j] by {
                assert(pre.pending[i + 1] != pre.pending[j + 1]);
            }
            assert forall|w1: u128, w2: u128|
                #[trigger] post.assigned.contains_key(w1) && #[trigger] post.assigned.contains_key(w2)
                    && w1 != w2 implies post.assigned[w1] != post.assigned[w2] by {
                if w1 == id {
                    assert(pre.assigned.contains_key(w2));
                    assert(pre.pending[0] != pre.assigned[w2]);
                } else if w2 == id {
                    assert(pre.assigned.contains_key(w1));
                    assert(pre.pending[0] != pre.assigned[w1]);
                } else {
                    assert(pre.assigned.contains_key(w1) && pre.assigned.contains_key(w2));
                    assert(pre.assigned[w1] != pre.assigned[w2]);
                }
            }
        }
    }
}

} // verus!
