use zero2prod::idempotency::claim_outcome;
use zero2prod::idempotency::response::InvalidStatusCode;
use zero2prod::idempotency::response::ResponseRow;
use zero2prod::idempotency::Claim;
use zero2prod::idempotency::HeaderPairRecord;
use zero2prod::idempotency::IdempotencyKey;
use zero2prod::idempotency::IdempotencyKeyError;
use zero2prod::idempotency::RetryPolicy;
use zero2prod::idempotency::SavedResponse;

#[test]
fn an_empty_key_is_rejected() {
    let error = IdempotencyKey::try_from(String::new()).unwrap_err();
    assert_eq!(error, IdempotencyKeyError::Empty);
    assert_eq!(error.message(), "The idempotency key cannot be empty!");
}

#[test]
fn a_key_of_one_character_is_accepted() {
    let key = IdempotencyKey::try_from("k".to_string()).unwrap();
    assert_eq!(key.as_ref(), "k");
}

#[test]
fn a_key_of_49_characters_is_accepted() {
    let key = IdempotencyKey::try_from("k".repeat(49)).unwrap();
    assert_eq!(key.as_string(), &"k".repeat(49));
    assert_eq!(key.into_string(), "k".repeat(49));
}

#[test]
fn a_key_of_50_characters_is_rejected() {
    let error = IdempotencyKey::try_from("k".repeat(50)).unwrap_err();
    assert_eq!(error, IdempotencyKeyError::TooLong);
    assert_eq!(
        error.message(),
        "The idempotency key must be shorter than 50 characters."
    );
}

#[test]
fn the_length_of_a_key_is_counted_in_characters() {
    assert!(IdempotencyKey::try_from("\u{e9}".repeat(49)).is_ok());
    assert_eq!(
        IdempotencyKey::try_from("\u{e9}".repeat(50)).unwrap_err(),
        IdempotencyKeyError::TooLong
    );
}

fn sample_response() -> SavedResponse {
    SavedResponse::build(201)
        .unwrap()
        .append_header("set-cookie".to_string(), b"a=1".to_vec())
        .append_header("set-cookie".to_string(), vec![0xff, 0x00])
        .body(b"<p>done</p>".to_vec())
}

#[test]
fn a_response_is_built_from_status_headers_and_body() {
    let response = sample_response();
    assert_eq!(response.status_code(), 201);
    assert_eq!(
        response.headers(),
        &vec![
            HeaderPairRecord { name: "set-cookie".to_string(), value: b"a=1".to_vec() },
            HeaderPairRecord { name: "set-cookie".to_string(), value: vec![0xff, 0x00] },
        ]
    );
    assert_eq!(response.body_bytes(), &b"<p>done</p>".to_vec());
    assert_eq!(response.clone(), response);
}

#[test]
fn a_status_needs_three_digits() {
    assert!(SavedResponse::build(99).is_none());
    assert!(SavedResponse::build(100).is_some());
    assert!(SavedResponse::build(999).is_some());
    assert!(SavedResponse::build(1000).is_none());
    assert!(SavedResponse::build(0).is_none());
    assert!(SavedResponse::build(u16::MAX).is_none());
}

#[test]
fn a_response_comes_back_from_its_row_as_it_was() {
    let response = sample_response();
    let row = response.to_row();
    assert_eq!(row.response_status_code, 201);
    assert_eq!(row.response_headers.len(), 2);
    assert_eq!(row.response_body, b"<p>done</p>".to_vec());
    assert_eq!(SavedResponse::from_row(row), Ok(response));
}

#[test]
fn a_row_with_an_impossible_status_is_refused() {
    for code in [-1i16, 0, 99, 1000, i16::MAX, i16::MIN] {
        let row = ResponseRow {
            response_status_code: code,
            response_headers: vec![],
            response_body: vec![],
        };
        assert_eq!(SavedResponse::from_row(row), Err(InvalidStatusCode(code)));
    }
}

#[test]
fn a_request_in_flight_waits_a_bounded_number_of_times() {
    let policy = RetryPolicy::default();
    assert_eq!(policy, RetryPolicy { max_retries: 10, backoff_millis: 100 });
    assert_eq!(policy.next_backoff(0), Some(100));
    assert_eq!(policy.next_backoff(9), Some(100));
    assert_eq!(policy.next_backoff(10), None);
    assert_eq!(policy.next_backoff(u32::MAX), None);
    let never = RetryPolicy { max_retries: 0, backoff_millis: 5 };
    assert_eq!(never.next_backoff(0), None);
}

#[test]
fn the_outcome_of_a_claim_is_read_off_the_rows() {
    let row = |code: i16| ResponseRow {
        response_status_code: code,
        response_headers: vec![HeaderPairRecord { name: "a".to_string(), value: vec![1] }],
        response_body: vec![2, 3],
    };
    assert!(matches!(claim_outcome(1, None), Ok(Claim::Started)));
    assert!(matches!(claim_outcome(1, Some(row(200))), Ok(Claim::Started)));
    assert!(matches!(claim_outcome(0, None), Ok(Claim::InFlight)));
    match claim_outcome(0, Some(row(200))) {
        Ok(Claim::Completed(response)) => {
            assert_eq!(response, SavedResponse::from_row(row(200)).unwrap());
            assert_eq!(response.status_code(), 200);
            assert_eq!(response.body_bytes(), &vec![2, 3]);
        }
        other => panic!("{:?}", other),
    }
    assert!(matches!(claim_outcome(0, Some(row(-3))), Err(InvalidStatusCode(-3))));
}

#[test]
fn a_copy_of_a_key_holds_the_same_text() {
    let key = IdempotencyKey::try_from("abc".to_string()).unwrap();
    assert_eq!(key.clone().as_ref(), "abc");
}
