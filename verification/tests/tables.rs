use zero2prod::domain::subscribers::SubscriberDirectory;
use zero2prod::domain::SubscriberEmail;
use zero2prod::domain::SubscriberStatus;
use zero2prod::idempotency::persistence::RecordError;
use zero2prod::idempotency::response::copy_bytes;
use zero2prod::idempotency::response::copy_headers;
use zero2prod::idempotency::Claim;
use zero2prod::idempotency::HeaderPairRecord;
use zero2prod::idempotency::IdempotencyKey;
use zero2prod::idempotency::IdempotencyStore;
use zero2prod::idempotency::SavedResponse;
use zero2prod::issue_delivery_worker::DeliveryStep;
use zero2prod::issue_delivery_worker::ExecutionOutcome;
use zero2prod::issue_store::DuplicateIssue;
use zero2prod::issue_store::Issue;
use zero2prod::issue_store::IssueStore;
use zero2prod::issue_store::NewsletterIssueRecord;
use zero2prod::routes::admin::newsletters::PublishError;
use zero2prod::idempotency::IdempotencyKeyError;
use zero2prod::store::Store;
use zero2prod::store::StoreError;

fn key(text: &str) -> IdempotencyKey {
    IdempotencyKey::try_from(text.to_string()).unwrap()
}

fn response(status: u16, body: &str) -> SavedResponse {
    SavedResponse::build(status).unwrap().body(body.as_bytes().to_vec())
}

#[test]
fn a_key_goes_from_free_to_claimed_to_answered() {
    let mut table = IdempotencyStore::new();
    assert_eq!(table.len(), 0);
    assert!(!table.is_claimed(1, &key("k")));

    assert!(matches!(table.claim(1, &key("k"), 5), Claim::Started));
    assert!(table.is_claimed(1, &key("k")));
    assert!(!table.is_claimed(2, &key("k")));
    assert!(matches!(table.claim(1, &key("k"), 6), Claim::InFlight));
    assert_eq!(table.get_saved_response(1, &key("k")), None);
    assert_eq!(table.len(), 1);

    assert_eq!(table.complete(1, &key("k"), response(200, "done")), Ok(response(200, "done")));
    assert!(!table.is_claimed(1, &key("k")));
    match table.claim(1, &key("k"), 7) {
        Claim::Completed(saved) => assert_eq!(saved, response(200, "done")),
        other => panic!("{:?}", other),
    }
    assert_eq!(table.get_saved_response(1, &key("k")), Some(response(200, "done")));
    assert_eq!(table.len(), 1);
}

#[test]
fn a_response_is_written_once() {
    let mut table = IdempotencyStore::new();
    // Nothing to complete without a claim.
    assert_eq!(
        table.complete(1, &key("k"), response(200, "a")),
        Err(RecordError::NotClaimed)
    );
    assert_eq!(table.len(), 0);
    assert!(matches!(table.claim(1, &key("k"), 5), Claim::Started));
    assert!(table.complete(1, &key("k"), response(200, "a")).is_ok());
    // A written response is never replaced.
    assert_eq!(
        table.complete(1, &key("k"), response(500, "b")),
        Err(RecordError::NotClaimed)
    );
    assert_eq!(
        table.saved_response(1, &key("k"), response(500, "b"), 9),
        Err(RecordError::AlreadyRecorded)
    );
    assert!(!table.release(1, &key("k")));
    assert_eq!(table.get_saved_response(1, &key("k")), Some(response(200, "a")));
}

#[test]
fn a_claim_that_is_given_up_frees_the_key() {
    let mut table = IdempotencyStore::new();
    assert!(!table.release(1, &key("k")));
    assert!(matches!(table.claim(1, &key("k"), 5), Claim::Started));
    assert!(matches!(table.claim(1, &key("other"), 5), Claim::Started));
    assert!(table.release(1, &key("k")));
    assert_eq!(table.len(), 1);
    assert!(table.is_claimed(1, &key("other")));
    assert!(matches!(table.claim(1, &key("k"), 6), Claim::Started));
    assert_eq!(table.len(), 2);
}

#[test]
fn a_response_for_an_unknown_key_is_stored_whole() {
    let mut table = IdempotencyStore::new();
    let saved = SavedResponse::build(302)
        .unwrap()
        .append_header("location".to_string(), b"/".to_vec());
    assert_eq!(table.saved_response(3, &key("k"), saved.clone(), 1), Ok(saved.clone()));
    assert_eq!(table.get_saved_response(3, &key("k")), Some(saved));
    assert_eq!(table.len(), 1);
}

fn issue(id: u128, title: &str) -> Issue {
    Issue {
        issue_id: id,
        title: title.to_string(),
        html_content: format!("<p>{}</p>", title),
        text_content: title.to_lowercase(),
        published_at: 77,
    }
}

#[test]
fn an_issue_is_stored_once_under_its_id() {
    let mut issues = IssueStore::new();
    assert_eq!(issues.len(), 0);
    assert!(!issues.contains(1));
    assert_eq!(issues.get(1), None);
    assert_eq!(issues.insert(issue(1, "First")), Ok(()));
    assert_eq!(issues.insert(issue(2, "Second")), Ok(()));
    assert_eq!(issues.insert(issue(1, "Again")), Err(DuplicateIssue(1)));
    assert_eq!(issues.len(), 2);
    assert!(issues.contains(2));
    assert_eq!(
        issues.get(1),
        Some(NewsletterIssueRecord {
            title: "First".to_string(),
            text_content: "first".to_string(),
            html_content: "<p>First</p>".to_string(),
        })
    );
    assert_eq!(issues.get(3), None);
}

fn address(text: &str) -> SubscriberEmail {
    SubscriberEmail::parse(text.to_string()).unwrap()
}

#[test]
fn issues_are_taken_over_all_or_none() {
    let mut issues = IssueStore::new();
    issues.insert(issue(1, "First")).unwrap();
    let mut more = IssueStore::new();
    more.insert(issue(2, "Second")).unwrap();
    more.insert(issue(3, "Third")).unwrap();
    assert_eq!(issues.absorb(more), Ok(()));
    assert_eq!(issues.len(), 3);
    assert_eq!(issues.get(3).unwrap().title, "Third");
    let mut clash = IssueStore::new();
    clash.insert(issue(4, "Fourth")).unwrap();
    clash.insert(issue(2, "Again")).unwrap();
    assert_eq!(issues.absorb(clash), Err(DuplicateIssue(2)));
    assert_eq!(issues.len(), 3);
    assert!(!issues.contains(4));
    assert_eq!(issues.get(2).unwrap().title, "Second");
    assert_eq!(issues.absorb(IssueStore::new()), Ok(()));
    assert_eq!(issues.len(), 3);
}

#[test]
fn a_subscriber_waits_until_confirmed() {
    let mut directory = SubscriberDirectory::new();
    assert_eq!(directory.len(), 0);
    assert_eq!(directory.status(&"a@example.com".to_string()), SubscriberStatus::Unsubscribed);
    assert!(directory.insert(&address("a@example.com")));
    assert!(directory.insert(&address("b@example.com")));
    assert!(!directory.insert(&address("a@example.com")));
    assert_eq!(directory.len(), 2);
    assert_eq!(
        directory.status(&"a@example.com".to_string()),
        SubscriberStatus::PendingConfirmation
    );
    assert_eq!(directory.confirmed_emails(), Vec::<String>::new());

    assert!(directory.confirm(&"b@example.com".to_string()));
    assert!(!directory.confirm(&"c@example.com".to_string()));
    assert_eq!(directory.status(&"b@example.com".to_string()), SubscriberStatus::Confirmed);
    assert_eq!(directory.confirmed_emails(), vec!["b@example.com".to_string()]);
    assert!(directory.confirm(&"a@example.com".to_string()));
    assert!(directory.confirm(&"a@example.com".to_string()));
    assert_eq!(
        directory.confirmed_emails(),
        vec!["a@example.com".to_string(), "b@example.com".to_string()]
    );
    assert_eq!(directory.len(), 2);
}

#[test]
fn the_store_tells_the_status_of_an_address() {
    let mut store = Store::new();
    assert_eq!(
        store.subscription_status(&"a@example.com".to_string()),
        SubscriberStatus::Unsubscribed
    );
    assert!(store.insert_subscriber(&address("a@example.com")));
    assert!(!store.insert_subscriber(&address("a@example.com")));
    assert_eq!(
        store.subscription_status(&"a@example.com".to_string()),
        SubscriberStatus::PendingConfirmation
    );
    assert!(!store.confirm_subscriber(&"b@example.com".to_string()));
    assert!(store.confirm_subscriber(&"a@example.com".to_string()));
    assert_eq!(
        store.subscription_status(&"a@example.com".to_string()),
        SubscriberStatus::Confirmed
    );
    assert_eq!(store.get_confirmed_subscribers(), vec!["a@example.com".to_string()]);
    assert_eq!(store.counts(), (0, 0, 0));
}

#[test]
fn bytes_and_headers_are_copied_as_they_are() {
    assert_eq!(copy_bytes(&vec![]), Vec::<u8>::new());
    assert_eq!(copy_bytes(&vec![0, 255, 7]), vec![0, 255, 7]);
    let headers = vec![
        HeaderPairRecord { name: "a".to_string(), value: vec![1] },
        HeaderPairRecord { name: "a".to_string(), value: vec![] },
    ];
    assert_eq!(copy_headers(&headers), headers);
    assert_eq!(copy_headers(&vec![]), vec![]);
    assert_eq!(headers[0].clone(), headers[0]);
}

#[test]
fn an_error_is_reported_to_the_client_in_plain_text() {
    let refused = PublishError::ValidationError(IdempotencyKeyError::Empty);
    assert_eq!(refused.message(), "The idempotency key cannot be empty!");
    let response = refused.error_response();
    assert_eq!(response.status_code(), 400);
    assert_eq!(
        response.headers(),
        &vec![HeaderPairRecord {
            name: "content-type".to_string(),
            value: b"text/plain; charset=utf-8".to_vec(),
        }]
    );
    assert_eq!(response.body_bytes(), &b"The idempotency key cannot be empty!".to_vec());

    let long = PublishError::ValidationError(IdempotencyKeyError::TooLong).error_response();
    assert_eq!(long.status_code(), 400);
    assert_eq!(
        long.body_bytes(),
        &b"The idempotency key must be shorter than 50 characters.".to_vec()
    );

    let waiting = PublishError::KeyInFlight.error_response();
    assert_eq!(waiting.status_code(), 500);
    assert_eq!(
        waiting.body_bytes(),
        &b"A request with the same idempotency key is being processed.".to_vec()
    );
    let failed = PublishError::UnexpectedError(StoreError::DuplicateIssue(1)).error_response();
    assert_eq!(failed.status_code(), 500);
    assert_eq!(failed.body_bytes(), &b"Something went wrong on our side.".to_vec());
}

#[test]
fn a_step_tells_whether_the_iteration_has_ended() {
    assert_eq!(DeliveryStep::EmptyQueue.outcome(), Some(ExecutionOutcome::EmptyQueue));
    let mut store = Store::new();
    assert!(store.insert_subscriber(&address("a@example.com")));
    assert!(store.confirm_subscriber(&"a@example.com".to_string()));
    let form = zero2prod::routes::admin::IssueFormContent {
        title: "T".to_string(),
        html_content: "h".to_string(),
        text_content: "t".to_string(),
        idempotency_key: "k".to_string(),
    };
    let user = zero2prod::authentication::UserId(1);
    assert!(zero2prod::routes::admin::submit_issue(&mut store, user, form, 1, 1).is_ok());
    let step = zero2prod::issue_delivery_worker::try_execute_delivery(&mut store).unwrap();
    assert_eq!(step.outcome(), None);
}
