use zero2prod::delivery::{DeliveryTask, FailureReason, IssueDeliveryQueue};
use zero2prod::directory::{Subscriber, SubscriberDirectory, SubscriberStatus};
use zero2prod::domain::subscriber_name::SubscriberName;
use zero2prod::issues::IssueDraft;
use zero2prod::publisher::NewsletterPublisher;
use zero2prod::worker::{apply_send_outcome, SendOutcome};

fn subscriber(id: u64, email: &str, status: SubscriberStatus) -> Subscriber {
    Subscriber {
        id,
        email: email.to_string(),
        display_name: SubscriberName::parse("Ursula Le Guin".to_string()).unwrap(),
        status,
    }
}

fn draft() -> IssueDraft {
    IssueDraft {
        title: "Newsletter Title".to_string(),
        text_content: "Newsletter body as plain text".to_string(),
        html_content: "<p>Newsletter body as html</p>".to_string(),
    }
}

fn publisher_with_confirmed(emails: &[&str]) -> NewsletterPublisher {
    let mut directory = SubscriberDirectory::new();
    for (i, email) in emails.iter().enumerate() {
        assert!(directory.add_subscriber(subscriber(i as u64, email, SubscriberStatus::Confirmed)));
    }
    NewsletterPublisher::new(directory)
}

fn claim(queue: &mut IssueDeliveryQueue, now: u64) -> DeliveryTask {
    queue.claim_one(now).expect("an entry should be due")
}

#[test]
fn a_successful_send_empties_the_queue() {
    let mut publisher = publisher_with_confirmed(&["ursula@example.com"]);
    let key = "key-1".to_string();
    publisher.publish(7, &key, draft(), 100);
    let mut transport_invocations = 0u32;
    let task = claim(&mut publisher.queue, 100);
    transport_invocations += 1;
    apply_send_outcome(
        &mut publisher.queue,
        task.issue_id,
        &task.subscriber_email,
        SendOutcome::Success,
        100,
    );
    assert_eq!(publisher.queue.pending_count(), 0);
    assert_eq!(publisher.queue.failure_count(), 0);
    assert!(publisher.queue.claim_one(10_000).is_none());
    assert_eq!(transport_invocations, 1);
}

#[test]
fn transient_failures_retry_with_increasing_backoff() {
    let mut publisher = publisher_with_confirmed(&["ursula@example.com"]);
    let key = "key-1".to_string();
    publisher.publish(7, &key, draft(), 0);
    let email = "ursula@example.com".to_string();

    let task = claim(&mut publisher.queue, 0);
    apply_send_outcome(
        &mut publisher.queue,
        task.issue_id,
        &task.subscriber_email,
        SendOutcome::TransientFailure,
        0,
    );
    let after_first = publisher.queue.entry(0, &email).unwrap();
    assert_eq!(after_first.n_retries, 1);
    let due_1 = after_first.execute_after;
    assert!(due_1 > 0);
    assert!(!after_first.claimed);

    // Not due yet: no worker can claim it early.
    assert!(publisher.queue.claim_one(due_1 - 1).is_none());

    let task = claim(&mut publisher.queue, due_1);
    apply_send_outcome(
        &mut publisher.queue,
        task.issue_id,
        &task.subscriber_email,
        SendOutcome::TransientFailure,
        due_1,
    );
    let after_second = publisher.queue.entry(0, &email).unwrap();
    assert_eq!(after_second.n_retries, 2);
    let due_2 = after_second.execute_after;
    assert!(due_2 > due_1);

    // Two transient failures, then success: exactly one delivery remains
    // booked nowhere, and the queue is empty.
    let task = claim(&mut publisher.queue, due_2);
    apply_send_outcome(
        &mut publisher.queue,
        task.issue_id,
        &task.subscriber_email,
        SendOutcome::Success,
        due_2,
    );
    assert_eq!(publisher.queue.pending_count(), 0);
    assert_eq!(publisher.queue.failure_count(), 0);
    assert!(publisher.queue.claim_one(u64::MAX / 2).is_none());
}

#[test]
fn exhausted_retries_move_the_entry_to_the_terminal_log() {
    let mut publisher = publisher_with_confirmed(&["ursula@example.com"]);
    let key = "key-1".to_string();
    publisher.publish(7, &key, draft(), 0);
    let email = "ursula@example.com".to_string();
    let mut now = 0u64;
    let mut attempts = 0u32;
    while let Some(task) = publisher.queue.claim_one(now) {
        attempts += 1;
        apply_send_outcome(
            &mut publisher.queue,
            task.issue_id,
            &task.subscriber_email,
            SendOutcome::TransientFailure,
            now,
        );
        if let Some(entry) = publisher.queue.entry(0, &email) {
            assert!(entry.execute_after > now);
            now = entry.execute_after;
        }
    }
    // The retry ceiling is five: four reschedules, then the terminal move.
    assert_eq!(attempts, 5);
    assert_eq!(publisher.queue.pending_count(), 0);
    assert_eq!(publisher.queue.failure_count(), 1);
    let failures = publisher.queue.failures();
    assert_eq!(failures[0].subscriber_email, "ursula@example.com");
    assert_eq!(failures[0].issue_id, 0);
    assert_eq!(failures[0].n_retries, 5);
    assert!(matches!(failures[0].reason, FailureReason::RetriesExhausted));
    // Zero further attempts: nothing is ever claimable again.
    assert!(publisher.queue.claim_one(u64::MAX / 2).is_none());
}

#[test]
fn one_failing_recipient_does_not_block_the_other() {
    let mut publisher = publisher_with_confirmed(&["good@example.com", "bad@example.com"]);
    let key = "key-1".to_string();
    publisher.publish(7, &key, draft(), 0);
    assert_eq!(publisher.queue.pending_count(), 2);
    let bad = "bad@example.com".to_string();
    let mut now = 0u64;
    let mut successful_sends = 0u32;
    loop {
        match publisher.queue.claim_one(now) {
            Some(task) => {
                let outcome = if task.subscriber_email == "good@example.com" {
                    successful_sends += 1;
                    SendOutcome::Success
                } else {
                    SendOutcome::TransientFailure
                };
                apply_send_outcome(
                    &mut publisher.queue,
                    task.issue_id,
                    &task.subscriber_email,
                    outcome,
                    now,
                );
            },
            None => match publisher.queue.entry(0, &bad) {
                Some(entry) => now = entry.execute_after,
                None => break,
            },
        }
    }
    assert_eq!(successful_sends, 1);
    assert_eq!(publisher.queue.pending_count(), 0);
    assert_eq!(publisher.queue.failure_count(), 1);
    let failures = publisher.queue.failures();
    assert_eq!(failures[0].subscriber_email, "bad@example.com");
    assert!(matches!(failures[0].reason, FailureReason::RetriesExhausted));
}

#[test]
fn a_permanent_failure_is_terminal_at_once() {
    let mut publisher = publisher_with_confirmed(&["bounce@example.com"]);
    let key = "key-1".to_string();
    publisher.publish(7, &key, draft(), 0);
    let task = claim(&mut publisher.queue, 0);
    apply_send_outcome(
        &mut publisher.queue,
        task.issue_id,
        &task.subscriber_email,
        SendOutcome::PermanentFailure,
        0,
    );
    assert_eq!(publisher.queue.pending_count(), 0);
    assert_eq!(publisher.queue.failure_count(), 1);
    let failures = publisher.queue.failures();
    assert_eq!(failures[0].n_retries, 0);
    assert!(matches!(failures[0].reason, FailureReason::PermanentlyRejected));
}

#[test]
fn a_claimed_entry_is_not_claimable_by_a_second_worker() {
    let mut publisher = publisher_with_confirmed(&["ursula@example.com"]);
    let key = "key-1".to_string();
    publisher.publish(7, &key, draft(), 0);
    let first = publisher.queue.claim_one(0);
    assert!(first.is_some());
    // The lease is exclusive: a concurrent worker sees nothing to do.
    assert!(publisher.queue.claim_one(0).is_none());
}

#[test]
fn a_released_claim_becomes_claimable_again() {
    let mut publisher = publisher_with_confirmed(&["ursula@example.com"]);
    let key = "key-1".to_string();
    publisher.publish(7, &key, draft(), 0);
    let task = claim(&mut publisher.queue, 0);
    // The worker died mid-attempt; recovery releases its lease.
    publisher.queue.release_claim(task.issue_id, &task.subscriber_email);
    let again = publisher.queue.claim_one(0);
    assert!(again.is_some());
    assert_eq!(again.unwrap().n_retries, 0);
}

#[test]
fn an_empty_queue_has_nothing_to_claim() {
    let mut queue = IssueDeliveryQueue::new();
    assert!(queue.claim_one(0).is_none());
    assert_eq!(queue.pending_count(), 0);
    assert_eq!(queue.failure_count(), 0);
}
