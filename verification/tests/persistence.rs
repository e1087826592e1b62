use std::collections::HashSet;

use approval_persistence::attempt::classify_status;
use approval_persistence::driver::{ApprovedUsers, StartRequest, TickReport};
use approval_persistence::payload::payload_json;

fn endpoint() -> Option<(String, String)> {
    Some(("http://persist.example/approved".to_string(), "room".to_string()))
}

fn payload_set(req: &StartRequest) -> HashSet<String> {
    let body = payload_json(&req.users);
    let body: serde_json::Value = serde_json::from_str(&body).unwrap();
    let body_approved_users = body["approvedUsers"].as_array().expect("serialized as array");
    body_approved_users
        .iter()
        .map(|user| user.as_str().expect("each user ID is a string").to_string())
        .collect()
}

#[test]
fn happy_path() {
    let mut users = ApprovedUsers::new(Vec::new(), endpoint());
    assert!(!users.is_busy());

    assert!(users.insert("user".to_string()));
    assert!(users.is_busy());

    let req = users.take_start(true).expect("an attempt is decided");
    assert_eq!(req.delay_ms, 0);
    let body = payload_json(&req.users);
    let body: serde_json::Value = serde_json::from_str(&body).unwrap();
    let body_approved_users = body["approvedUsers"].as_array().expect("serialized as array");
    assert_eq!(
        vec!["user"],
        body_approved_users
            .iter()
            .map(|user| user.as_str().expect("each user ID is a string"))
            .collect::<Vec<_>>(),
    );

    // the attempt is still waiting out the minimum interval
    assert_eq!(users.tick(None), TickReport::Running);
    assert!(users.is_busy(), "minimum interval not respected");

    // minimum interval elapsed and the response was OK
    assert_eq!(users.tick(Some(classify_status(200))), TickReport::Persisted);
    assert!(!users.is_busy());
}

#[test]
fn timeout() {
    let mut users = ApprovedUsers::new(Vec::new(), endpoint());

    assert!(users.insert("user".to_string()));
    assert!(users.is_busy());

    let req = users.take_start(true).expect("an attempt is decided");
    assert_eq!(req.delay_ms, 0);

    assert_eq!(users.tick(None), TickReport::Running);
    assert!(users.is_busy(), "minimum interval not respected");

    // the attempt timed out locally: the synthesized status is not OK
    assert_eq!(
        users.tick(Some(classify_status(408))),
        TickReport::RetryScheduled
    );
    assert!(users.is_busy());
    assert_eq!(users.retry_count(), 1);

    // First backoff: 2..<4 seconds.
    let req = users.take_start(true).expect("a retry is decided");
    assert!(2000 <= req.delay_ms && req.delay_ms < 4000);

    assert_eq!(
        users.tick(Some(classify_status(408))),
        TickReport::RetryScheduled
    );
    assert!(users.is_busy());
    assert_eq!(users.retry_count(), 2);

    // Second backoff: 4..<8 seconds.
    let req = users.take_start(true).expect("a retry is decided");
    assert!(4000 <= req.delay_ms && req.delay_ms < 8000);

    assert_eq!(
        users.tick(Some(classify_status(408))),
        TickReport::RetryScheduled
    );
    assert!(users.is_busy());
    assert_eq!(users.retry_count(), 3);

    // Third backoff: 8..<16 seconds.
    let req = users.take_start(true).expect("a retry is decided");
    assert!(8000 <= req.delay_ms && req.delay_ms < 16000);

    assert_eq!(users.tick(Some(classify_status(408))), TickReport::GaveUp);
    assert!(!users.is_busy());
    assert_eq!(users.retry_count(), 4);

    // We gave up: no further attempt is decided.
    assert!(users.take_start(true).is_none());
    assert_eq!(users.tick(None), TickReport::Idle);
}

#[test]
fn retry_on_failure() {
    let mut users = ApprovedUsers::new(Vec::new(), endpoint());

    assert!(users.insert("user".to_string()));
    assert!(users.is_busy());

    let req = users.take_start(true).expect("an attempt is decided");
    assert_eq!(payload_set(&req), HashSet::from_iter(["user".to_string()]));

    assert_eq!(users.tick(None), TickReport::Running);
    assert!(users.is_busy(), "minimum interval not respected");

    // the first round fails with an internal server error
    assert_eq!(
        users.tick(Some(classify_status(500))),
        TickReport::RetryScheduled
    );
    assert_eq!(users.retry_count(), 1);

    // First backoff: 2..<4 seconds.
    let req = users.take_start(true).expect("a retry is decided");
    assert!(2000 <= req.delay_ms && req.delay_ms < 4000);
    assert!(users.is_busy());

    // the second round succeeds
    assert_eq!(users.tick(Some(classify_status(200))), TickReport::Persisted);
    assert!(!users.is_busy());
}

#[test]
fn adding_to_existing_set_persists_all_users() {
    let mut users = ApprovedUsers::new(vec!["A".to_string(), "B".to_string()], endpoint());

    assert!(users.insert("C".to_string()));
    assert!(users.is_busy());

    let req = users.take_start(true).expect("an attempt is decided");
    assert_eq!(
        HashSet::from_iter(["A".to_string(), "B".to_string(), "C".to_string()]),
        payload_set(&req),
    );
}

#[test]
fn removing_from_existing_set_persists_remaining_users() {
    let mut users = ApprovedUsers::new(
        vec!["A".to_string(), "B".to_string(), "C".to_string()],
        endpoint(),
    );

    assert!(users.remove(&"B".to_string()));
    assert!(users.is_busy());

    let req = users.take_start(true).expect("an attempt is decided");
    assert_eq!(
        HashSet::from_iter(["A".to_string(), "C".to_string()]),
        payload_set(&req),
    );
}

#[test]
fn add_during_persist() {
    let mut users = ApprovedUsers::new(vec!["A".to_string(), "B".to_string()], endpoint());

    assert!(users.insert("C".to_string()));
    assert!(users.is_busy());
    let req = users.take_start(true).expect("an attempt is decided");
    assert_eq!(
        HashSet::from_iter(["A".to_string(), "B".to_string(), "C".to_string()]),
        payload_set(&req),
    );

    assert!(users.insert("D".to_string()));
    assert!(users.is_busy());
    // no second attempt is decided while the first is outstanding
    assert!(users.take_start(true).is_none());

    // the first attempt finishes after the minimum interval; the follow-up
    // carries the newest snapshot
    assert_eq!(users.tick(Some(classify_status(200))), TickReport::FollowUp);
    assert!(users.is_busy());
    let req = users.take_start(true).expect("the follow-up is decided");
    assert_eq!(req.delay_ms, 0);
    assert_eq!(
        HashSet::from_iter([
            "A".to_string(),
            "B".to_string(),
            "C".to_string(),
            "D".to_string(),
        ]),
        payload_set(&req),
    );

    assert_eq!(users.tick(Some(classify_status(200))), TickReport::Persisted);
    assert!(!users.is_busy());
}

#[test]
fn remove_during_persist() {
    let mut users = ApprovedUsers::new(vec!["A".to_string(), "B".to_string()], endpoint());

    assert!(users.insert("C".to_string()));
    assert!(users.is_busy());
    let req = users.take_start(true).expect("an attempt is decided");
    assert_eq!(
        HashSet::from_iter(["A".to_string(), "B".to_string(), "C".to_string()]),
        payload_set(&req),
    );

    assert!(users.remove(&"B".to_string()));
    assert!(users.is_busy());
    assert!(users.take_start(true).is_none());

    assert_eq!(users.tick(Some(classify_status(200))), TickReport::FollowUp);
    assert!(users.is_busy());
    let req = users.take_start(true).expect("the follow-up is decided");
    assert_eq!(
        HashSet::from_iter(["A".to_string(), "C".to_string()]),
        payload_set(&req),
    );

    assert_eq!(users.tick(Some(classify_status(200))), TickReport::Persisted);
    assert!(!users.is_busy());
}

#[test]
fn add_and_remove_during_persist() {
    let mut users = ApprovedUsers::new(vec!["A".to_string(), "B".to_string()], endpoint());

    assert!(users.insert("C".to_string()));
    assert!(users.is_busy());
    let req = users.take_start(true).expect("an attempt is decided");
    assert_eq!(
        HashSet::from_iter(["A".to_string(), "B".to_string(), "C".to_string()]),
        payload_set(&req),
    );

    assert!(users.insert("D".to_string()));
    assert!(users.remove(&"B".to_string()));
    assert!(users.is_busy());
    assert!(users.take_start(true).is_none());

    assert_eq!(users.tick(Some(classify_status(200))), TickReport::FollowUp);
    assert!(users.is_busy());
    let req = users.take_start(true).expect("the follow-up is decided");
    assert_eq!(
        HashSet::from_iter(["A".to_string(), "C".to_string(), "D".to_string()]),
        payload_set(&req),
    );

    assert_eq!(users.tick(Some(classify_status(200))), TickReport::Persisted);
    assert!(!users.is_busy());
}

#[test]
fn redundant_add_is_ignored() {
    let mut users = ApprovedUsers::new(vec!["A".to_string(), "B".to_string()], endpoint());

    assert!(!users.insert("B".to_string()));
    assert!(!users.is_busy());
    assert!(users.take_start(true).is_none(), "should not be called");
}

#[test]
fn redundant_remove_is_ignored() {
    let mut users = ApprovedUsers::new(vec!["A".to_string(), "B".to_string()], endpoint());

    assert!(!users.remove(&"C".to_string()));
    assert!(!users.is_busy());
    assert!(users.take_start(true).is_none(), "should not be called");
}
