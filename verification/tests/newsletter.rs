use zero2prod::idempotency::{BeginOutcome, HeaderPair, IdempotencyStore, StoredResponse};
use zero2prod::processor::{
    accepted_response, poll_for_replay, CommandProcessor, IssueCommand, PublishError,
    ValidationError,
};
use zero2prod::worker::{process_delivery_outcome, TransportOutcome};

const ACCEPTED: &str = "The newsletter issue has been accepted - emails will go out shortly.";

fn command(title: Option<&str>, text: Option<&str>, html: Option<&str>, key: &str) -> IssueCommand {
    IssueCommand {
        title: title.map(|s| s.to_string()),
        text_content: text.map(|s| s.to_string()),
        html_content: html.map(|s| s.to_string()),
        idempotency_key: key.to_string(),
    }
}

/// Drain the outbox, invoking the counting transport for each task, until
/// nothing is due any more. Every attempt succeeds.
fn drain_all(processor: &mut CommandProcessor, now: u64, calls: &mut Vec<String>) {
    loop {
        let batch = processor.outbox.dequeue_batch(now, 16);
        if batch.is_empty() {
            break;
        }
        for task in &batch {
            calls.push(task.recipient.clone());
            process_delivery_outcome(&mut processor.outbox, task, TransportOutcome::Delivered, now, 3);
        }
    }
}

#[test]
fn newsletters_are_not_delivered_to_unconfirmed_subscribers() {
    let mut app = CommandProcessor::new();
    // The lone subscriber never confirmed, so the directory lists nobody.
    let confirmed: Vec<String> = Vec::new();
    let cmd = command(
        Some("Newsletter Title"),
        Some("Newsletter in plain text"),
        Some("<h1>Newsletter</h1> as HTML"),
        "8b2a6c5d-3f41-4e2a-9c7b-1d2e3f4a5b6c",
    );
    let response = app.publish_newsletter(1, &cmd, &confirmed, 1000).unwrap();
    assert_eq!(response.status, 200);
    let mut calls = Vec::new();
    drain_all(&mut app, 1000, &mut calls);
    assert_eq!(calls.len(), 0);
}

#[test]
fn newsletters_are_delivered_to_confirmed_subscriber() {
    let mut app = CommandProcessor::new();
    let confirmed = vec!["ursula_le_guin@gmail.com".to_string()];
    let cmd = command(
        Some("Newsletter Title"),
        Some("Newsletter in plain text"),
        Some("<h1>Newsletter</h1> as HTML"),
        "53d2c0b7-9a88-4c0f-8e21-7745b6d0aa10",
    );
    let response = app.publish_newsletter(1, &cmd, &confirmed, 1000).unwrap();
    assert_eq!(response.status, 200);
    let mut calls = Vec::new();
    drain_all(&mut app, 1000, &mut calls);
    assert_eq!(calls, vec!["ursula_le_guin@gmail.com".to_string()]);
}

#[test]
fn newsletters_returns_400_for_invalid_body() {
    let mut app = CommandProcessor::new();
    let confirmed = vec!["ursula_le_guin@gmail.com".to_string()];
    let cases = vec![
        (
            command(
                None,
                Some("newsletter plain text"),
                Some("<h1>newsletter</h1> html"),
                "f3e2d1c0-aaaa-bbbb-cccc-000011112222",
            ),
            "missing title",
        ),
        (command(Some("test title"), None, None, "f3e2d1c0-aaaa-bbbb-cccc-000011112223"), "missing content"),
    ];
    for (cmd, msg) in cases {
        let outcome = app.publish_newsletter(1, &cmd, &confirmed, 1000);
        assert!(
            matches!(outcome, Err(PublishError::Validation(_))),
            "The API did not fail with status 400 when payload was {msg}"
        );
    }
    assert!(matches!(
        app.publish_newsletter(
            1,
            &command(None, Some("x"), Some("y"), "k-title"),
            &confirmed,
            1000
        ),
        Err(PublishError::Validation(ValidationError::MissingTitle))
    ));
    assert!(matches!(
        app.publish_newsletter(1, &command(Some("t"), None, None, "k-content"), &confirmed, 1000),
        Err(PublishError::Validation(ValidationError::MissingContent))
    ));
}

#[test]
fn newsletter_creation_is_idempotent() {
    let mut app = CommandProcessor::new();
    let confirmed = vec!["ursula_le_guin@gmail.com".to_string()];
    let key = "2f9c8b7a-6d5e-4f3a-b2c1-d0e9f8a7b6c5";
    let cmd = command(
        Some("Newsletter title"),
        Some("Newsletter body"),
        Some("<h1>Newsletter  body</h1>"),
        key,
    );
    let first = app.publish_newsletter(7, &cmd, &confirmed, 1000).unwrap();
    assert_eq!(first.status, 200);
    assert_eq!(first.body, ACCEPTED);
    assert_eq!(app.outbox.pending_count(), 1);

    // Submitting again with the same key replays the stored response and
    // creates no second set of delivery tasks.
    let second = app.publish_newsletter(7, &cmd, &confirmed, 2000).unwrap();
    assert_eq!(second.status, first.status);
    assert_eq!(second.body, first.body);
    assert_eq!(app.outbox.pending_count(), 1);
}

#[test]
fn concurrent_form_submission_is_handled() {
    // Two requests carrying the same key race: request A wins the
    // reservation; request B sees the key in progress, and polls until A
    // finalized — the artificial transport delay never matters, because
    // responses are returned before any delivery is attempted.
    let mut app = CommandProcessor::new();
    let confirmed = vec!["ursula_le_guin@gmail.com".to_string()];
    let key = "K2".to_string();
    let actor = 9;
    let now = 1000;

    let a = app.store.begin(actor, &key, now);
    assert!(matches!(a, BeginOutcome::Started));
    // B arrives while A is still working: the reservation refuses it.
    let b = app.store.begin(actor, &key, now);
    assert!(matches!(b, BeginOutcome::InProgress));

    // A finishes its transaction and finalizes the canonical response.
    app.outbox.enqueue_many(&confirmed, 0, now);
    let response_a = accepted_response();
    app.store.finalize(actor, &key, accepted_response());

    // B's poll now finds the finalized record and replays it verbatim.
    let response_b = poll_for_replay(&app.store, actor, &key, 10).unwrap();
    assert_eq!(response_a.status, response_b.status);
    assert_eq!(response_a.body, response_b.body);

    // Exactly one transport call is made for the single confirmed reader.
    let mut calls = Vec::new();
    drain_all(&mut app, now, &mut calls);
    assert_eq!(calls.len(), 1);
}

#[test]
fn duplicate_key_still_in_progress_is_a_conflict() {
    let mut app = CommandProcessor::new();
    let confirmed = vec!["ursula_le_guin@gmail.com".to_string()];
    let key = "77a1b2c3-d4e5-f607-1829-3a4b5c6d7e8f";
    let begun = app.store.begin(3, &key.to_string(), 500);
    assert!(matches!(begun, BeginOutcome::Started));
    // The owner crashed before finalizing; a duplicate exhausts its poll
    // budget and reports the retryable conflict.
    let cmd = command(Some("Title"), Some("text"), None, key);
    let outcome = app.publish_newsletter(3, &cmd, &confirmed, 600);
    assert!(matches!(outcome, Err(PublishError::Conflict)));
    assert_eq!(app.outbox.pending_count(), 0);
}

#[test]
fn resubmission_with_different_content_replays_the_original() {
    let mut app = CommandProcessor::new();
    let confirmed = vec!["confirmed@example.com".to_string()];
    let key = "K1";
    let first = app
        .publish_newsletter(1, &command(Some("Issue"), Some("body"), None, key), &confirmed, 100)
        .unwrap();
    let mut calls = Vec::new();
    drain_all(&mut app, 100, &mut calls);
    assert_eq!(calls.len(), 1);

    // Different content, same key: same acceptance, still one transport
    // call in total.
    let second = app
        .publish_newsletter(
            1,
            &command(Some("Other title"), Some("other body"), None, key),
            &confirmed,
            200,
        )
        .unwrap();
    assert_eq!(second.status, first.status);
    assert_eq!(second.body, first.body);
    assert_eq!(first.body, ACCEPTED);
    drain_all(&mut app, 300, &mut calls);
    assert_eq!(calls.len(), 1);
}

#[test]
fn empty_confirmed_list_still_accepts() {
    let mut app = CommandProcessor::new();
    let confirmed: Vec<String> = Vec::new();
    let response = app
        .publish_newsletter(1, &command(Some("Issue"), None, Some("<p>x</p>"), "K9"), &confirmed, 50)
        .unwrap();
    assert_eq!(response.status, 200);
    assert_eq!(response.body, ACCEPTED);
    assert_eq!(app.outbox.pending_count(), 0);
    let mut calls = Vec::new();
    drain_all(&mut app, 50, &mut calls);
    assert_eq!(calls.len(), 0);
}

#[test]
fn poll_budget_exhaustion_is_a_conflict() {
    let mut app = CommandProcessor::new();
    let key = "K4".to_string();
    let begun = app.store.begin(2, &key, 100);
    assert!(matches!(begun, zero2prod::idempotency::BeginOutcome::Started));
    // The owner never finalizes: the poll gives up with the conflict.
    let polled = poll_for_replay(&app.store, 2, &key, 5);
    assert!(matches!(polled, Err(PublishError::Conflict)));
}

#[test]
fn replay_preserves_headers_and_body_verbatim() {
    let mut store = IdempotencyStore::new();
    let key = "K7".to_string();
    assert!(matches!(store.begin(4, &key, 10), BeginOutcome::Started));
    store.finalize(
        4,
        &key,
        StoredResponse {
            status: 303,
            headers: vec![HeaderPair {
                name: "Location".to_string(),
                value: "/admin/newsletters".to_string(),
            }],
            body: "see other".to_string(),
        },
    );
    match store.begin(4, &key, 20) {
        BeginOutcome::Finalized(resp) => {
            assert_eq!(resp.status, 303);
            assert_eq!(resp.headers.len(), 1);
            assert_eq!(resp.headers[0].name, "Location");
            assert_eq!(resp.headers[0].value, "/admin/newsletters");
            assert_eq!(resp.body, "see other");
        }
        _ => panic!("the finalized response must replay"),
    }
}
