use scoop::idempotency::{claim_wait_step, GatewayError, IdempotencyKey, SavedResponse, MAX_CLAIM_WAIT_ATTEMPTS};
use scoop::newsletter::{publish_newsletter, publish_newsletter_with_id, FormData};
use scoop::store::{Datastore, IssueRow, NextAction};

fn form(key: &str) -> FormData {
    FormData {
        title: "Newsletter title".to_string(),
        text_content: "Newsletter body as plaintext".to_string(),
        html_content: "<p>Newsletter body as HTML</p>".to_string(),
        idempotency_key: key.to_string(),
    }
}

fn same_response(a: &SavedResponse, b: &SavedResponse) -> bool {
    a.status_code == b.status_code
        && a.body == b.body
        && a.headers.len() == b.headers.len()
        && a.headers.iter().zip(b.headers.iter()).all(|(x, y)| x.name == y.name && x.value == y.value)
}

fn store_with(confirmed: &[&str], pending: &[&str]) -> Datastore {
    let mut s = Datastore::new();
    for e in confirmed {
        s.add_subscriber(e.to_string(), true);
    }
    for e in pending {
        s.add_subscriber(e.to_string(), false);
    }
    s
}

#[test]
fn key_must_be_non_empty_and_at_most_fifty_chars() {
    assert!(matches!(IdempotencyKey::parse(String::new()), Err(GatewayError::InvalidKey)));
    assert!(IdempotencyKey::parse("a".repeat(50)).is_ok());
    assert!(matches!(IdempotencyKey::parse("a".repeat(51)), Err(GatewayError::InvalidKey)));
    let k = IdempotencyKey::parse("abc-123".to_string()).unwrap();
    assert_eq!(k.as_str(), "abc-123");
}

#[test]
fn invalid_key_is_refused_before_any_write() {
    let mut s = store_with(&["a@example.com"], &[]);
    let r = publish_newsletter_with_id(&mut s, 1, &form(""), 10, 0);
    assert!(matches!(r, Err(GatewayError::InvalidKey)));
    assert_eq!(s.claim_count(), 0);
    assert_eq!(s.issue_count(), 0);
    assert_eq!(s.queue_len(), 0);
}

#[test]
fn publish_fans_out_to_confirmed_subscribers_only() {
    let mut s = store_with(&["a@example.com", "b@example.com", "c@example.com"], &["d@example.com"]);
    let r = publish_newsletter_with_id(&mut s, 1, &form("abc-123"), 77, 5).unwrap();
    assert_eq!(r.status_code, 303);
    assert_eq!(r.headers.len(), 1);
    assert_eq!(r.headers[0].name, "location");
    assert_eq!(r.headers[0].value, b"/admin/newsletters".to_vec());
    assert_eq!(r.body, b"The newsletter issue has been accepted -emails will go out shortly!".to_vec());
    assert_eq!(s.issue_count(), 1);
    assert_eq!(s.issue_id_at(0), 77);
    assert_eq!(s.queue_len(), 3);
    let recipients: Vec<String> = (0..3).map(|i| s.task_at(i).1).collect();
    assert_eq!(recipients, vec!["a@example.com", "b@example.com", "c@example.com"]);
    for i in 0..3 {
        let (issue, _, locked) = s.task_at(i);
        assert_eq!(issue, 77);
        assert!(!locked);
    }
}

#[test]
fn repeated_publish_executes_once_and_replays() {
    let mut s = store_with(&["a@example.com", "b@example.com"], &[]);
    let first = publish_newsletter_with_id(&mut s, 1, &form("same"), 1, 0).unwrap();
    for n in 0..5u128 {
        let again = publish_newsletter_with_id(&mut s, 1, &form("same"), 100 + n, 1).unwrap();
        assert!(same_response(&first, &again));
    }
    assert_eq!(s.issue_count(), 1);
    assert_eq!(s.queue_len(), 2);
    assert_eq!(s.claim_count(), 1);
}

#[test]
fn replay_wins_over_a_different_payload() {
    let mut s = store_with(&["a@example.com"], &[]);
    let first = publish_newsletter_with_id(&mut s, 9, &form("k1"), 1, 0).unwrap();
    let mut other = form("k1");
    other.title = "Another title".to_string();
    let again = publish_newsletter_with_id(&mut s, 9, &other, 2, 0).unwrap();
    assert!(same_response(&first, &again));
    assert_eq!(s.issue_count(), 1);
    assert_eq!(s.queue_len(), 1);
}

#[test]
fn keys_are_scoped_per_principal() {
    let mut s = store_with(&["a@example.com"], &[]);
    publish_newsletter_with_id(&mut s, 1, &form("shared"), 1, 0).unwrap();
    publish_newsletter_with_id(&mut s, 2, &form("shared"), 2, 0).unwrap();
    assert_eq!(s.issue_count(), 2);
    assert_eq!(s.queue_len(), 2);
    assert_eq!(s.claim_count(), 2);
}

#[test]
fn duplicate_during_flight_does_not_execute_then_replays() {
    let mut s = store_with(&["a@example.com"], &[]);
    let tx = match s.begin_or_replay(1, "dup-1", 0) {
        Ok(NextAction::StartProcessing(tx)) => tx,
        _ => panic!("first request must start"),
    };
    assert!(matches!(s.begin_or_replay(1, "dup-1", 0), Ok(NextAction::InFlight)));
    assert!(matches!(
        publish_newsletter_with_id(&mut s, 1, &form("dup-1"), 5, 0),
        Err(GatewayError::ConcurrentClaimTimeout)
    ));
    assert_eq!(s.issue_count(), 0);
    let mut tx = tx;
    tx.insert_issue(IssueRow {
        id: 4,
        title: "t".to_string(),
        text_body: "x".to_string(),
        html_body: "<p>x</p>".to_string(),
    });
    tx.enqueue_delivery_tasks(&s, 0);
    let resp = SavedResponse { status_code: 200, headers: Vec::new(), body: b"done".to_vec() };
    let saved = s.complete(tx, resp).unwrap();
    match s.begin_or_replay(1, "dup-1", 1) {
        Ok(NextAction::ReturnSaved(r)) => assert!(same_response(&saved, &r)),
        _ => panic!("duplicate must replay"),
    }
    assert_eq!(s.issue_count(), 1);
    assert_eq!(s.queue_len(), 1);
}

#[test]
fn rollback_leaves_no_trace_and_retry_succeeds() {
    let mut s = store_with(&["a@example.com", "b@example.com"], &[]);
    let mut tx = match s.begin_or_replay(3, "crash", 0) {
        Ok(NextAction::StartProcessing(tx)) => tx,
        _ => panic!("must start"),
    };
    tx.insert_issue(IssueRow {
        id: 8,
        title: "t".to_string(),
        text_body: "x".to_string(),
        html_body: "y".to_string(),
    });
    tx.enqueue_delivery_tasks(&s, 0);
    s.rollback(tx);
    assert_eq!(s.claim_count(), 0);
    assert_eq!(s.queue_len(), 0);
    assert_eq!(s.issue_count(), 0);
    assert!(s.saved_response(3, "crash").is_none());
    let r = publish_newsletter_with_id(&mut s, 3, &form("crash"), 8, 1);
    assert!(r.is_ok());
    assert_eq!(s.queue_len(), 2);
    assert!(s.saved_response(3, "crash").is_some());
}

#[test]
fn commit_with_an_existing_issue_id_is_refused_and_rolled_back() {
    let mut s = store_with(&["a@example.com"], &[]);
    publish_newsletter_with_id(&mut s, 1, &form("one"), 42, 0).unwrap();
    let r = publish_newsletter_with_id(&mut s, 1, &form("two"), 42, 0);
    assert!(matches!(r, Err(GatewayError::PersistenceError)));
    assert_eq!(s.issue_count(), 1);
    assert_eq!(s.queue_len(), 1);
    assert_eq!(s.claim_count(), 1);
    let retry = publish_newsletter_with_id(&mut s, 1, &form("two"), 43, 0);
    assert!(retry.is_ok());
    assert_eq!(s.issue_count(), 2);
}

#[test]
fn publish_draws_a_version_four_issue_id() {
    let mut s = store_with(&["a@example.com"], &[]);
    publish_newsletter(&mut s, 1, &form("random-id"), 0).unwrap();
    let id = s.issue_id_at(0);
    assert_eq!(id & 0xF000_C000_0000_0000_0000, 0x4000_8000_0000_0000_0000);
    let mut t = store_with(&[], &[]);
    publish_newsletter(&mut t, 1, &form("random-id"), 0).unwrap();
    assert_ne!(t.issue_id_at(0), id);
}

#[test]
fn claim_wait_is_bounded() {
    assert_eq!(claim_wait_step(0), Ok(200));
    assert_eq!(claim_wait_step(MAX_CLAIM_WAIT_ATTEMPTS - 1), Ok(200));
    assert_eq!(claim_wait_step(MAX_CLAIM_WAIT_ATTEMPTS), Err(GatewayError::ConcurrentClaimTimeout));
}

#[test]
fn an_address_is_subscribed_once() {
    let mut s = Datastore::new();
    assert!(s.add_subscriber("a@example.com".to_string(), true));
    assert!(!s.add_subscriber("a@example.com".to_string(), false));
    publish_newsletter_with_id(&mut s, 1, &form("once"), 1, 0).unwrap();
    assert_eq!(s.queue_len(), 1);
}

#[test]
fn a_recipient_queued_twice_is_refused_at_commit() {
    let mut s = store_with(&["a@example.com"], &[]);
    let mut tx = match s.begin_or_replay(1, "twice", 0) {
        Ok(NextAction::StartProcessing(tx)) => tx,
        _ => panic!("must start"),
    };
    tx.insert_issue(IssueRow {
        id: 3,
        title: "t".to_string(),
        text_body: "x".to_string(),
        html_body: "y".to_string(),
    });
    tx.enqueue_delivery_tasks(&s, 0);
    tx.enqueue_delivery_tasks(&s, 0);
    let resp = SavedResponse { status_code: 200, headers: Vec::new(), body: Vec::new() };
    assert!(matches!(s.complete(tx, resp), Err(GatewayError::PersistenceError)));
    assert_eq!(s.claim_count(), 0);
    assert_eq!(s.queue_len(), 0);
    assert_eq!(s.issue_count(), 0);
}
