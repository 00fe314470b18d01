//! Concrete instances of the engine's stated properties.

use job_dispatch::registry::{CompleteOutcome, Registry};

const STALENESS: u64 = 60;

/// No path is both pending and held by some worker, and every worker that
/// holds a path is checked in.
fn check_invariant(reg: &Registry, workers: &[u128]) {
    let pending = reg.snapshot_pending();
    for w in workers {
        if let Some(p) = reg.assigned_path(*w) {
            assert!(reg.is_known(*w), "assigned worker must be checked in");
            assert!(!pending.contains(&p), "assigned path must not be pending");
        }
    }
}

#[test]
fn path_uniqueness_and_containment() {
    let workers: [u128; 3] = [1, 2, 3];
    let mut reg = Registry::new(STALENESS);
    check_invariant(&reg, &workers);
    assert!(reg.intake(String::from("a")));
    assert!(reg.intake(String::from("b")));
    reg.register(1, 0);
    reg.register(2, 0);
    check_invariant(&reg, &workers);
    assert!(reg.pull_for(1, 0).is_some());
    check_invariant(&reg, &workers);
    reg.ping(1, 10);
    assert!(reg.pull_for(2, 70).is_some());
    check_invariant(&reg, &workers);
    assert_eq!(reg.complete_for(2, false), CompleteOutcome::NotYet);
    check_invariant(&reg, &workers);
    assert!(reg.fail_for(1));
    check_invariant(&reg, &workers);
}

#[test]
fn duplicate_intake_is_dropped() {
    let mut reg = Registry::new(STALENESS);
    assert!(reg.intake(String::from("a")));
    assert!(!reg.intake(String::from("a")));
    assert_eq!(reg.snapshot_pending(), vec![String::from("a")]);
    reg.register(1, 0);
    assert_eq!(reg.pull_for(1, 0), Some(String::from("a")));
    // A path held by a worker is tracked too.
    assert!(!reg.intake(String::from("a")));
    assert!(reg.snapshot_pending().is_empty());
}

#[test]
fn fifo_when_nothing_is_stale() {
    let mut reg = Registry::new(STALENESS);
    assert!(reg.intake(String::from("first")));
    assert!(reg.intake(String::from("second")));
    assert!(reg.intake(String::from("third")));
    reg.register(1, 0);
    reg.register(2, 0);
    assert_eq!(reg.pull_for(1, 1), Some(String::from("first")));
    assert_eq!(reg.pull_for(2, 2), Some(String::from("second")));
    // Both workers stay fresh, so the third pull is FIFO as well.
    assert_eq!(reg.pull_for(2, 3), Some(String::from("third")));
}

#[test]
fn reclaim_takes_precedence_over_fresh_work() {
    let mut reg = Registry::new(STALENESS);
    assert!(reg.intake(String::from("old-job")));
    assert!(reg.intake(String::from("fresh-job")));
    reg.register(1, 0);
    assert_eq!(reg.pull_for(1, 0), Some(String::from("old-job")));

    // Worker 1 goes silent past the staleness bound.
    reg.register(2, 61);
    assert_eq!(reg.pull_for(2, 61), Some(String::from("old-job")));
    assert_eq!(reg.snapshot_pending(), vec![String::from("fresh-job")]);
}

#[test]
fn ping_keeps_a_worker_fresh() {
    let mut reg = Registry::new(STALENESS);
    assert!(reg.intake(String::from("a")));
    assert!(reg.intake(String::from("b")));
    reg.register(1, 0);
    assert_eq!(reg.pull_for(1, 0), Some(String::from("a")));
    reg.ping(1, 30);

    // At 61 the first worker's heartbeat is 31 s old: nothing is stale,
    // so the second worker gets fresh work, not the reclaimed path.
    reg.register(2, 61);
    assert_eq!(reg.pull_for(2, 61), Some(String::from("b")));
    assert_eq!(reg.assigned_path(1), Some(String::from("a")));
}

#[test]
fn ping_unknown_changes_nothing() {
    let mut reg = Registry::new(STALENESS);
    assert!(reg.intake(String::from("a")));
    reg.register(1, 0);
    reg.ping(7, 99);
    assert!(!reg.is_known(7));
    assert!(reg.is_known(1));
    assert_eq!(reg.snapshot_pending(), vec![String::from("a")]);
}

#[test]
fn complete_round_trip() {
    let mut reg = Registry::new(STALENESS);
    assert!(reg.intake(String::from("a")));
    assert!(reg.intake(String::from("b")));
    reg.register(1, 0);
    assert_eq!(reg.pull_for(1, 0), Some(String::from("a")));

    // A failing completion re-enqueues the same path at the tail.
    assert_eq!(reg.complete_for(1, false), CompleteOutcome::NotYet);
    assert!(reg.assigned_path(1).is_none());
    assert_eq!(
        reg.snapshot_pending(),
        vec![String::from("b"), String::from("a")]
    );

    // A successful completion removes the assignment and nothing else.
    assert_eq!(reg.pull_for(1, 1), Some(String::from("b")));
    assert_eq!(reg.complete_for(1, true), CompleteOutcome::Completed);
    assert!(reg.assigned_path(1).is_none());
    assert_eq!(reg.snapshot_pending(), vec![String::from("a")]);

    // A worker with no assignment is told so.
    assert_eq!(reg.complete_for(1, true), CompleteOutcome::Missing);
}

#[test]
fn failure_of_unknown_worker_is_silent() {
    let mut reg = Registry::new(STALENESS);
    assert!(reg.intake(String::from("a")));
    assert!(!reg.fail_for(9));
    assert_eq!(reg.snapshot_pending(), vec![String::from("a")]);
}
