//! End-to-end scenarios driven through the dispatcher surface.

use job_dispatch::dispatch;
use job_dispatch::paths;
use job_dispatch::registry::Registry;

const STALENESS: u64 = 60;

fn uuid_text(id: u128) -> String {
    uuid::Uuid::from_u128(id).to_string()
}

#[test]
fn happy_path() {
    let mut reg = Registry::new(STALENESS);
    assert!(reg.intake(String::from("a.mp4")));

    let body = dispatch::register(&mut reg, 0);
    assert!(body.starts_with("urn:uuid:"));
    let id = uuid::Uuid::parse_str(&body).unwrap().as_u128();
    assert!(reg.is_known(id));

    let pulled = dispatch::pull(&mut reg, &body, 1).unwrap();
    assert_eq!(pulled, "a.mp4");

    let target = paths::expected_output_path("/completed", &pulled, ".webm");
    assert_eq!(target, "/completed/a.webm");

    let answer = dispatch::push(&mut reg, &body, true).unwrap();
    assert_eq!(answer, Ok(String::from("Thanks!")));

    assert!(reg.assigned_path(id).is_none());
    assert!(reg.snapshot_pending().is_empty());
    assert_eq!(dispatch::index(&reg), "");
}

#[test]
fn stale_worker_reclaimed() {
    let mut reg = Registry::new(STALENESS);
    reg.register(1, 0);
    assert!(reg.intake(String::from("a.mp4")));
    assert_eq!(reg.pull_for(1, 0), Some(String::from("a.mp4")));

    // 61 s pass with no ping from the first worker.
    reg.register(2, 61);
    assert_eq!(reg.pull_for(2, 61), Some(String::from("a.mp4")));

    assert_eq!(dispatch::index(&reg), "");
    assert_eq!(reg.assigned_path(2), Some(String::from("a.mp4")));
    assert!(reg.assigned_path(1).is_none());
}

#[test]
fn failed_conversion() {
    let mut reg = Registry::new(STALENESS);
    reg.register(1, 0);
    assert!(reg.intake(String::from("a.mp4")));
    assert_eq!(reg.pull_for(1, 0), Some(String::from("a.mp4")));

    let answer = dispatch::failure(&mut reg, &uuid_text(1)).unwrap();
    assert_eq!(answer, "Ok");
    assert!(!reg.is_known(1));
    assert_eq!(reg.snapshot_pending(), vec![String::from("a.mp4")]);

    reg.register(2, 1);
    assert_eq!(reg.pull_for(2, 1), Some(String::from("a.mp4")));
}

#[test]
fn push_without_completed_file() {
    let mut reg = Registry::new(STALENESS);
    reg.register(1, 0);
    assert!(reg.intake(String::from("a.mp4")));
    assert_eq!(reg.pull_for(1, 0), Some(String::from("a.mp4")));

    let answer = dispatch::push(&mut reg, &uuid_text(1), false).unwrap();
    match answer {
        Err(body) => assert!(body.contains("file not submitted")),
        Ok(_) => panic!("push without the output file must not succeed"),
    }
    assert_eq!(reg.snapshot_pending(), vec![String::from("a.mp4")]);
    assert!(reg.assigned_path(1).is_none());
}

#[test]
fn multiple_intakes_order_preserved() {
    let mut reg = Registry::new(STALENESS);
    assert!(reg.intake(String::from("x")));
    assert!(reg.intake(String::from("y")));
    assert!(reg.intake(String::from("z")));

    assert_eq!(dispatch::index(&reg), "x\ny\nz\n");

    reg.register(1, 0);
    assert_eq!(reg.pull_for(1, 0), Some(String::from("x")));
    assert_eq!(reg.pull_for(1, 0), Some(String::from("y")));
    assert_eq!(reg.pull_for(1, 0), Some(String::from("z")));
}

#[test]
fn ping_on_unknown_uuid() {
    let mut reg = Registry::new(STALENESS);
    assert!(reg.intake(String::from("a.mp4")));

    let stranger = uuid_text(424242);
    let answer = dispatch::ping(&mut reg, &stranger, 5).unwrap();
    assert_eq!(answer, "Ok");
    assert!(!reg.is_known(424242));
    assert_eq!(reg.snapshot_pending(), vec![String::from("a.mp4")]);
}

#[test]
fn malformed_uuid_header_is_rejected() {
    let mut reg = Registry::new(STALENESS);
    assert!(dispatch::ping(&mut reg, "not-a-uuid", 0).is_none());
    assert!(dispatch::pull(&mut reg, "", 0).is_none());
    assert!(dispatch::push(&mut reg, "123", true).is_none());
    assert!(dispatch::failure(&mut reg, "xyz").is_none());
}
