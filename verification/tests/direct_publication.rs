use zero2prod::domain::publish_issue;
use zero2prod::domain::publish_issue::PublishStep;
use zero2prod::domain::Content;
use zero2prod::domain::IssueContent;
use zero2prod::domain::SubscriberEmail;
use zero2prod::idempotency::IdempotencyKeyError;
use zero2prod::issue_delivery_worker::OutgoingEmail;
use zero2prod::issue_delivery_worker::SendOutcome;
use zero2prod::routes::admin::newsletters::PublishError;
use zero2prod::routes::publish_newsletters;
use zero2prod::routes::SendIssueContent;
use zero2prod::store::Store;

fn issue() -> IssueContent {
    IssueContent {
        title: "Newsletter title".to_string(),
        content: Content {
            html: "<p>HTML body!</p>".to_string(),
            text: "Plain text body".to_string(),
        },
    }
}

fn store_with(confirmed: &[SubscriberEmail], pending: &[&str]) -> Store {
    let mut store = Store::new();
    for email in confirmed {
        assert!(store.insert_subscriber(email));
        assert!(store.confirm_subscriber(&email.to_string()));
    }
    for address in pending {
        assert!(store.insert_subscriber(&SubscriberEmail::parse(address.to_string()).unwrap()));
    }
    store
}

fn address(text: &str) -> SubscriberEmail {
    SubscriberEmail::parse(text.to_string()).unwrap()
}

fn recipient(step: PublishStep) -> String {
    match step {
        PublishStep::Send(email) => email.recipient.to_string(),
        other => panic!("{:?}", other),
    }
}

#[test]
fn every_confirmed_subscriber_gets_the_issue() {
    let store = store_with(&[address("a@example.com"), address("b@example.com")], &["c@example.com"]);
    let mut publication = publish_issue(&issue(), &store);
    match publication.next_step(None) {
        PublishStep::Send(email) => assert_eq!(
            email,
            OutgoingEmail {
                recipient: address("a@example.com"),
                subject: "Newsletter title".to_string(),
                html_content: "<p>HTML body!</p>".to_string(),
                text_content: "Plain text body".to_string(),
            }
        ),
        other => panic!("{:?}", other),
    }
    assert_eq!(recipient(publication.next_step(Some(SendOutcome::Delivered))), "b@example.com");
    assert!(matches!(
        publication.next_step(Some(SendOutcome::Delivered)),
        PublishStep::Finished
    ));
    assert!(matches!(publication.next_step(None), PublishStep::Finished));
    assert_eq!(publication.failure_message(), None);
    // Nothing was stored.
    assert_eq!(store.counts(), (0, 0, 0));
}

#[test]
fn nobody_to_send_to_finishes_at_once() {
    let store = store_with(&[], &["c@example.com"]);
    let mut publication = publish_issue(&issue(), &store);
    assert!(matches!(publication.next_step(None), PublishStep::Finished));
}

#[test]
fn an_address_that_is_no_email_address_is_passed_over() {
    let corrupt = SubscriberEmail::from_validation("corrupt".to_string(), true).unwrap();
    let broken = SubscriberEmail::from_validation("also broken".to_string(), true).unwrap();
    let store = store_with(
        &[corrupt, address("a@example.com"), broken.clone(), address("b@example.com")],
        &[],
    );
    let mut publication = publish_issue(&issue(), &store);
    assert_eq!(recipient(publication.next_step(None)), "a@example.com");
    assert_eq!(recipient(publication.next_step(Some(SendOutcome::Delivered))), "b@example.com");
    assert!(matches!(
        publication.next_step(Some(SendOutcome::Delivered)),
        PublishStep::Finished
    ));

    let store = store_with(&[address("a@example.com"), broken], &[]);
    let mut publication = publish_issue(&issue(), &store);
    assert_eq!(recipient(publication.next_step(None)), "a@example.com");
    assert!(matches!(
        publication.next_step(Some(SendOutcome::Delivered)),
        PublishStep::Finished
    ));
}

#[test]
fn a_failed_sending_ends_the_batch() {
    let store = store_with(
        &[address("a@example.com"), address("b@example.com"), address("c@example.com")],
        &[],
    );
    let mut publication = publish_issue(&issue(), &store);
    assert_eq!(recipient(publication.next_step(None)), "a@example.com");
    assert_eq!(recipient(publication.next_step(Some(SendOutcome::Delivered))), "b@example.com");
    assert_eq!(publication.failure_message(), None);
    assert!(matches!(
        publication.next_step(Some(SendOutcome::TransportFailure)),
        PublishStep::Aborted
    ));
    assert_eq!(
        publication.failure_message(),
        Some("Failed to send newsletter to b@example.com".to_string())
    );
    assert!(matches!(publication.next_step(None), PublishStep::Aborted));
    assert!(matches!(
        publication.next_step(Some(SendOutcome::Delivered)),
        PublishStep::Aborted
    ));
}

#[test]
fn the_recipients_are_those_confirmed_when_the_publication_began() {
    let mut store = store_with(&[address("a@example.com")], &["late@example.com"]);
    let mut publication = publish_issue(&issue(), &store);
    assert!(store.confirm_subscriber(&"late@example.com".to_string()));
    assert_eq!(recipient(publication.next_step(None)), "a@example.com");
    assert!(matches!(
        publication.next_step(Some(SendOutcome::Delivered)),
        PublishStep::Finished
    ));
    let mut publication = publish_issue(&issue(), &store);
    assert_eq!(recipient(publication.next_step(None)), "a@example.com");
    assert_eq!(
        recipient(publication.next_step(Some(SendOutcome::Delivered))),
        "late@example.com"
    );
}

fn request(key: &str) -> SendIssueContent {
    SendIssueContent {
        title: "Newsletter title".to_string(),
        content: Content { html: "<p>html</p>".to_string(), text: "plain text".to_string() },
        idempotency_key: key.to_string(),
    }
}

#[test]
fn a_request_with_a_malformed_key_publishes_nothing() {
    let store = store_with(&[address("a@example.com")], &[]);
    assert_eq!(
        publish_newsletters(request(""), &store).unwrap_err(),
        PublishError::ValidationError(IdempotencyKeyError::Empty)
    );
    assert_eq!(
        publish_newsletters(request(&"x".repeat(60)), &store).unwrap_err(),
        PublishError::ValidationError(IdempotencyKeyError::TooLong)
    );
}

#[test]
fn a_request_publishes_its_issue() {
    let store = store_with(&[address("a@example.com")], &[]);
    let mut publication = publish_newsletters(request("some-key"), &store).unwrap();
    match publication.next_step(None) {
        PublishStep::Send(email) => {
            assert_eq!(email.recipient.as_ref(), "a@example.com");
            assert_eq!(email.subject, "Newsletter title");
            assert_eq!(email.html_content, "<p>html</p>");
            assert_eq!(email.text_content, "plain text");
        }
        other => panic!("{:?}", other),
    }
    let issue = IssueContent::from(request("k"));
    assert_eq!(issue.title, "Newsletter title");
    assert_eq!(issue.content.text, "plain text");
}
