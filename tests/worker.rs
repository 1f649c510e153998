use scoop::newsletter::{publish_newsletter_with_id, FormData};
use scoop::store::Datastore;
use scoop::worker::{
    delay_after, disposition_after_send, plan_delivery, DeliveryPlan, Disposition, ExecutionOutcome,
    ScriptedTransport,
};

fn form(key: &str) -> FormData {
    FormData {
        title: "Issue title".to_string(),
        text_content: "plain body".to_string(),
        html_content: "<p>html body</p>".to_string(),
        idempotency_key: key.to_string(),
    }
}

fn published(addresses: &[&str]) -> Datastore {
    let mut s = Datastore::new();
    for a in addresses {
        s.add_subscriber(a.to_string(), true);
    }
    publish_newsletter_with_id(&mut s, 1, &form("abc-123"), 500, 0).unwrap();
    s
}

#[test]
fn publish_then_three_runs_deliver_three_mails() {
    let mut s = published(&["a@example.com", "b@example.com", "c@example.com"]);
    assert_eq!(s.queue_len(), 3);
    for i in 0..3 {
        assert_eq!(s.task_at(i).0, 500);
    }
    let mut transport = ScriptedTransport::new(Vec::new());
    for _ in 0..3 {
        assert_eq!(s.try_execute_task(&mut transport), ExecutionOutcome::TaskCompleted);
    }
    assert_eq!(s.queue_len(), 0);
    assert_eq!(s.try_execute_task(&mut transport), ExecutionOutcome::EmptyQueue);
    assert_eq!(transport.sent_count(), 3);
    let mut recipients: Vec<String> = Vec::new();
    for i in 0..3 {
        let job = transport.sent_job(i);
        assert_eq!(job.issue_id, 500);
        assert_eq!(job.title, "Issue title");
        assert_eq!(job.text_body, "plain body");
        assert_eq!(job.html_body, "<p>html body</p>");
        recipients.push(job.recipient.clone());
    }
    recipients.sort();
    assert_eq!(recipients, vec!["a@example.com", "b@example.com", "c@example.com"]);
}

#[test]
fn concurrent_duplicate_publish_sends_once() {
    let mut s = Datastore::new();
    s.add_subscriber("reader@example.com".to_string(), true);
    let mut a = match s.begin_or_replay(7, "dup-1", 0) {
        Ok(scoop::store::NextAction::StartProcessing(tx)) => tx,
        _ => panic!("first request must start"),
    };
    assert!(matches!(s.begin_or_replay(7, "dup-1", 0), Ok(scoop::store::NextAction::InFlight)));
    a.insert_issue(scoop::store::IssueRow {
        id: 1,
        title: "Issue title".to_string(),
        text_body: "plain body".to_string(),
        html_body: "<p>html body</p>".to_string(),
    });
    a.enqueue_delivery_tasks(&s, 0);
    let r1 = s.complete(a, scoop::newsletter::accepted_response_exec()).unwrap();
    let r2 = match s.begin_or_replay(7, "dup-1", 1) {
        Ok(scoop::store::NextAction::ReturnSaved(r)) => r,
        _ => panic!("second request must replay"),
    };
    assert_eq!(r1.status_code, r2.status_code);
    assert_eq!(r1.body, r2.body);
    assert_eq!(r1.headers.len(), r2.headers.len());
    let r3 = publish_newsletter_with_id(&mut s, 7, &form("dup-1"), 2, 0).unwrap();
    assert_eq!(r1.body, r3.body);
    let mut transport = ScriptedTransport::new(Vec::new());
    while s.try_execute_task(&mut transport) == ExecutionOutcome::TaskCompleted {}
    assert_eq!(transport.sent_count(), 1);
}

#[test]
fn transient_failure_keeps_the_row_and_a_later_pass_sends_it() {
    let mut s = published(&["a@example.com", "b@example.com"]);
    let mut transport = ScriptedTransport::new(vec![false, true, false, true]);
    assert_eq!(s.try_execute_task(&mut transport), ExecutionOutcome::TaskCompleted);
    assert_eq!(s.queue_len(), 2);
    assert_eq!(s.try_execute_task(&mut transport), ExecutionOutcome::TaskCompleted);
    assert_eq!(s.queue_len(), 1);
    assert_eq!(s.try_execute_task(&mut transport), ExecutionOutcome::TaskCompleted);
    assert_eq!(s.queue_len(), 1);
    assert_eq!(s.try_execute_task(&mut transport), ExecutionOutcome::TaskCompleted);
    assert_eq!(s.queue_len(), 0);
    assert_eq!(s.try_execute_task(&mut transport), ExecutionOutcome::EmptyQueue);
    assert_eq!(transport.sent_count(), 4);
    assert_eq!(transport.sent_job(0).recipient, transport.sent_job(1).recipient);
}

#[test]
fn malformed_address_is_dropped_without_a_send() {
    let mut s = published(&["definitely-not-an-email"]);
    assert_eq!(s.queue_len(), 1);
    let mut transport = ScriptedTransport::new(vec![false]);
    assert_eq!(s.try_execute_task(&mut transport), ExecutionOutcome::TaskCompleted);
    assert_eq!(s.queue_len(), 0);
    assert_eq!(transport.sent_count(), 0);
}

#[test]
fn claimed_rows_are_skipped_by_other_workers() {
    let mut s = published(&["a@example.com", "b@example.com"]);
    let first = s.claim_next_task().unwrap();
    let second = s.claim_next_task().unwrap();
    assert_ne!(first.recipient, second.recipient);
    assert!(s.claim_next_task().is_none());
    s.finish_task(&first, Disposition::Release);
    assert_eq!(s.queue_len(), 2);
    let again = s.claim_next_task().unwrap();
    assert_eq!(again.recipient, first.recipient);
    s.finish_task(&second, Disposition::Delete);
    assert_eq!(s.queue_len(), 1);
    s.finish_task(&again, Disposition::Delete);
    assert_eq!(s.queue_len(), 0);
}

#[test]
fn oldest_task_is_claimed_first() {
    let mut s = Datastore::new();
    s.add_subscriber("new@example.com".to_string(), true);
    publish_newsletter_with_id(&mut s, 1, &form("later"), 2, 50).unwrap();
    s.add_subscriber("old@example.com".to_string(), false);
    let mut t = Datastore::new();
    t.add_subscriber("x@example.com".to_string(), true);
    publish_newsletter_with_id(&mut t, 1, &form("early"), 3, 10).unwrap();
    publish_newsletter_with_id(&mut t, 1, &form("late"), 4, 20).unwrap();
    let job = t.claim_next_task().unwrap();
    assert_eq!(job.issue_id, 3);
    assert_eq!(job.enqueued_at, 10);
    assert_eq!(s.claim_next_task().unwrap().issue_id, 2);
}

#[test]
fn worker_decisions() {
    assert_eq!(plan_delivery("ursula_le_guin@gmail.com"), DeliveryPlan::Send);
    assert_eq!(plan_delivery("definitely-not-an-email"), DeliveryPlan::Discard);
    assert_eq!(disposition_after_send(true), Disposition::Delete);
    assert_eq!(disposition_after_send(false), Disposition::Release);
    assert_eq!(delay_after(ExecutionOutcome::TaskCompleted), 0);
    assert_eq!(delay_after(ExecutionOutcome::EmptyQueue), 10000);
}
