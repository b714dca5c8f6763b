use zero2prod::directory::{Subscriber, SubscriberDirectory, SubscriberStatus};
use zero2prod::domain::subscriber_name::SubscriberName;
use zero2prod::http::HttpResponse;
use zero2prod::issues::IssueDraft;
use zero2prod::publisher::{NewsletterPublisher, PublishOutcome};

fn subscriber(id: u64, email: &str, name: &str, status: SubscriberStatus) -> Subscriber {
    Subscriber {
        id,
        email: email.to_string(),
        display_name: SubscriberName::parse(name.to_string()).unwrap(),
        status,
    }
}

fn draft() -> IssueDraft {
    IssueDraft {
        title: "Newsletter Title".to_string(),
        text_content: "Newsletter body as plain text".to_string(),
        html_content: "<p>Newsletter body as html</p>".to_string(),
    }
}

fn published_response(outcome: PublishOutcome) -> HttpResponse {
    match outcome {
        PublishOutcome::Published(resp) => resp,
        _ => panic!("expected a fresh publish"),
    }
}

fn replayed_response(outcome: PublishOutcome) -> HttpResponse {
    match outcome {
        PublishOutcome::Replayed(resp) => resp,
        _ => panic!("expected a replayed response"),
    }
}

#[test]
fn newsletters_are_delivered_to_confirmed_subscribers() {
    let mut directory = SubscriberDirectory::new();
    assert!(directory.add_subscriber(subscriber(
        1,
        "ursula@example.com",
        "Ursula Le Guin",
        SubscriberStatus::Confirmed,
    )));
    let mut publisher = NewsletterPublisher::new(directory);
    let key = "key-1".to_string();
    let outcome = publisher.publish(7, &key, draft(), 100);
    let resp = published_response(outcome);
    assert_eq!(resp.status, 200);
    assert_eq!(resp.body, "The newsletter issue has been published!");
    assert_eq!(publisher.issues.count(), 1);
    assert_eq!(publisher.queue.pending_count(), 1);
    let email = "ursula@example.com".to_string();
    let entry = publisher.queue.entry(0, &email).unwrap();
    assert_eq!(entry.n_retries, 0);
    assert_eq!(entry.execute_after, 100);
    assert!(!entry.claimed);
}

#[test]
fn newsletters_are_not_delivered_to_unconfirmed_subscribers() {
    let mut directory = SubscriberDirectory::new();
    assert!(directory.add_subscriber(subscriber(
        1,
        "pending@example.com",
        "Ursula Le Guin",
        SubscriberStatus::PendingConfirmation,
    )));
    let mut publisher = NewsletterPublisher::new(directory);
    let key = "key-1".to_string();
    let outcome = publisher.publish(7, &key, draft(), 100);
    let resp = published_response(outcome);
    assert_eq!(resp.status, 200);
    assert_eq!(publisher.issues.count(), 1);
    assert_eq!(publisher.queue.pending_count(), 0);
}

#[test]
fn newsletters_creation_is_idempotent() {
    let mut directory = SubscriberDirectory::new();
    assert!(directory.add_subscriber(subscriber(
        1,
        "ursula@example.com",
        "Ursula Le Guin",
        SubscriberStatus::Confirmed,
    )));
    let mut publisher = NewsletterPublisher::new(directory);
    let key = "idem-key".to_string();
    let first = published_response(publisher.publish(7, &key, draft(), 100));
    let second = replayed_response(publisher.publish(7, &key, draft(), 250));
    assert_eq!(first.status, second.status);
    assert_eq!(first.body, second.body);
    assert_eq!(publisher.issues.count(), 1);
    assert_eq!(publisher.queue.pending_count(), 1);
    assert_eq!(publisher.idempotency.len(), 1);
}

#[test]
fn publishing_with_no_subscribers_is_idempotent() {
    let directory = SubscriberDirectory::new();
    let mut publisher = NewsletterPublisher::new(directory);
    let key = "abc".to_string();
    let first = published_response(publisher.publish(1, &key, draft(), 5));
    assert_eq!(publisher.issues.count(), 1);
    assert_eq!(publisher.queue.pending_count(), 0);
    let second = replayed_response(publisher.publish(1, &key, draft(), 9));
    assert_eq!(first.status, second.status);
    assert_eq!(first.body, second.body);
    assert_eq!(publisher.issues.count(), 1);
    assert_eq!(publisher.queue.pending_count(), 0);
}

#[test]
fn repeated_publishes_see_the_same_response_body() {
    let mut directory = SubscriberDirectory::new();
    assert!(directory.add_subscriber(subscriber(
        1,
        "ursula@example.com",
        "Ursula Le Guin",
        SubscriberStatus::Confirmed,
    )));
    let mut publisher = NewsletterPublisher::new(directory);
    let key = "retried".to_string();
    let first = published_response(publisher.publish(7, &key, draft(), 100));
    for attempt in 0..4u64 {
        let replay = replayed_response(publisher.publish(7, &key, draft(), 200 + attempt));
        assert_eq!(replay.body, first.body);
    }
    assert_eq!(publisher.issues.count(), 1);
    assert_eq!(publisher.queue.pending_count(), 1);
}

#[test]
fn an_in_flight_claim_makes_publish_back_off() {
    let mut directory = SubscriberDirectory::new();
    assert!(directory.add_subscriber(subscriber(
        1,
        "ursula@example.com",
        "Ursula Le Guin",
        SubscriberStatus::Confirmed,
    )));
    let mut publisher = NewsletterPublisher::new(directory);
    let key = "crashed-mid-flight".to_string();
    // A previous process claimed the key and died before completing it.
    assert!(matches!(
        publisher.idempotency.try_claim(7, &key, 50),
        zero2prod::idempotency::ClaimOutcome::Fresh
    ));
    let outcome = publisher.publish(7, &key, draft(), 100);
    assert!(matches!(outcome, PublishOutcome::TryAgainLater));
    assert_eq!(publisher.issues.count(), 0);
    assert_eq!(publisher.queue.pending_count(), 0);
}

#[test]
fn distinct_keys_create_distinct_issues() {
    let mut directory = SubscriberDirectory::new();
    assert!(directory.add_subscriber(subscriber(
        1,
        "ursula@example.com",
        "Ursula Le Guin",
        SubscriberStatus::Confirmed,
    )));
    let mut publisher = NewsletterPublisher::new(directory);
    let key_a = "key-a".to_string();
    let key_b = "key-b".to_string();
    published_response(publisher.publish(7, &key_a, draft(), 100));
    published_response(publisher.publish(7, &key_b, draft(), 110));
    assert_eq!(publisher.issues.count(), 2);
    assert_eq!(publisher.queue.pending_count(), 2);
    assert_eq!(publisher.issues.get(0).unwrap().title, "Newsletter Title");
    assert_eq!(publisher.issues.get(1).unwrap().created_at, 110);
    assert!(publisher.issues.get(2).is_none());
}

#[test]
fn a_duplicate_email_is_not_added_twice() {
    let mut directory = SubscriberDirectory::new();
    assert!(directory.add_subscriber(subscriber(
        1,
        "ursula@example.com",
        "Ursula Le Guin",
        SubscriberStatus::Confirmed,
    )));
    assert!(!directory.add_subscriber(subscriber(
        2,
        "ursula@example.com",
        "Ursula Le Guin",
        SubscriberStatus::Confirmed,
    )));
    assert_eq!(directory.len(), 1);
    assert_eq!(directory.list_confirmed_emails(), vec!["ursula@example.com".to_string()]);
}
