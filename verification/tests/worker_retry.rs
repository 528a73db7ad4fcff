use zero2prod::processor::{CommandProcessor, IssueCommand};
use zero2prod::worker::{backoff, process_delivery_outcome, TransportOutcome, WorkerAction};

fn publish_one(app: &mut CommandProcessor, now: u64) {
    let confirmed = vec!["reader@example.com".to_string()];
    let cmd = IssueCommand {
        title: Some("Issue".to_string()),
        text_content: Some("body".to_string()),
        html_content: None,
        idempotency_key: "retry-key".to_string(),
    };
    app.publish_newsletter(1, &cmd, &confirmed, now).unwrap();
}

#[test]
fn backoff_is_exponential_then_linear() {
    assert_eq!(backoff(0), 1);
    assert_eq!(backoff(1), 3);
    assert_eq!(backoff(2), 6);
    assert_eq!(backoff(3), 11);
    assert_eq!(backoff(10), 1034);
    // Strictly increasing past the exponent cap as well.
    assert!(backoff(33) > backoff(32));
    assert!(backoff(100) > backoff(99));
}

#[test]
fn transient_failures_up_to_budget_still_deliver_exactly_once() {
    let max_attempts = 3;
    let mut app = CommandProcessor::new();
    publish_one(&mut app, 1000);

    let mut transport_calls = 0;
    let mut now = 1000;
    // max_attempts - 1 transient failures, then success.
    for round in 0..max_attempts {
        let batch = app.outbox.dequeue_batch(now, 8);
        assert_eq!(batch.len(), 1, "the task must be due again");
        let task = &batch[0];
        assert_eq!(task.attempt_count, round);
        transport_calls += 1;
        let outcome = if round + 1 < max_attempts {
            TransportOutcome::TransientFailure
        } else {
            TransportOutcome::Delivered
        };
        let action =
            process_delivery_outcome(&mut app.outbox, task, outcome, now, max_attempts);
        match action {
            WorkerAction::Retried(next) => {
                assert_eq!(next, now + backoff(task.attempt_count + 1));
                assert!(next > now);
                now = next;
            }
            WorkerAction::Completed => assert_eq!(round + 1, max_attempts),
            WorkerAction::Dropped => panic!("no drop within the budget"),
        }
    }
    assert_eq!(transport_calls, max_attempts);
    assert_eq!(app.outbox.delivered_log().len(), 1);
    assert_eq!(app.outbox.dropped_count(), 0);
    assert_eq!(app.outbox.pending_count(), 0);
}

#[test]
fn exhausting_the_budget_drops_the_task_for_good() {
    let max_attempts = 3;
    let mut app = CommandProcessor::new();
    publish_one(&mut app, 1000);

    let mut now = 1000;
    for round in 0..max_attempts {
        let batch = app.outbox.dequeue_batch(now, 8);
        assert_eq!(batch.len(), 1);
        let task = &batch[0];
        let action = process_delivery_outcome(
            &mut app.outbox,
            task,
            TransportOutcome::TransientFailure,
            now,
            max_attempts,
        );
        match action {
            WorkerAction::Retried(next) => {
                assert!(round + 1 < max_attempts);
                now = next;
            }
            WorkerAction::Dropped => assert_eq!(round + 1, max_attempts),
            WorkerAction::Completed => panic!("every attempt failed"),
        }
    }
    assert_eq!(app.outbox.dropped_count(), 1);
    assert_eq!(app.outbox.delivered_log().len(), 0);
    // Zero further attempts: nothing is ever due again.
    let batch = app.outbox.dequeue_batch(u64::MAX, 8);
    assert!(batch.is_empty());
}

#[test]
fn permanent_failure_drops_without_retry() {
    let mut app = CommandProcessor::new();
    publish_one(&mut app, 1000);
    let batch = app.outbox.dequeue_batch(1000, 8);
    assert_eq!(batch.len(), 1);
    let action = process_delivery_outcome(
        &mut app.outbox,
        &batch[0],
        TransportOutcome::PermanentFailure,
        1000,
        3,
    );
    assert!(matches!(action, WorkerAction::Dropped));
    assert_eq!(app.outbox.dropped_count(), 1);
    assert_eq!(app.outbox.pending_count(), 0);
    assert!(app.outbox.dequeue_batch(u64::MAX, 8).is_empty());
}

#[test]
fn dequeue_respects_deadline_and_limit() {
    let mut app = CommandProcessor::new();
    let confirmed = vec![
        "a@example.com".to_string(),
        "b@example.com".to_string(),
        "c@example.com".to_string(),
    ];
    let cmd = IssueCommand {
        title: Some("Issue".to_string()),
        text_content: Some("body".to_string()),
        html_content: None,
        idempotency_key: "batch-key".to_string(),
    };
    app.publish_newsletter(1, &cmd, &confirmed, 500).unwrap();

    // Nothing is due before the enqueue time.
    assert!(app.outbox.dequeue_batch(499, 8).is_empty());
    // The limit caps the batch; fair order hands out the earliest ids.
    let first = app.outbox.dequeue_batch(500, 2);
    assert_eq!(first.len(), 2);
    assert_eq!(first[0].recipient, "a@example.com");
    assert_eq!(first[1].recipient, "b@example.com");
    // Leased tasks are invisible to a second worker.
    let second = app.outbox.dequeue_batch(500, 8);
    assert_eq!(second.len(), 1);
    assert_eq!(second[0].recipient, "c@example.com");
}
