use zero2prod::authentication::BasicAuthError;
use zero2prod::authentication::UserId;
use zero2prod::domain::SubscriberStatus;
use zero2prod::idempotency::HeaderPairRecord;
use zero2prod::routes::error_chain_fmt;
use zero2prod::routes::generate_subscription_token;
use zero2prod::routes::login::get::login_error_html;
use zero2prod::routes::subscriptions::confirmation_email;
use zero2prod::routes::subscriptions::plan_subscription;
use zero2prod::routes::subscriptions::subscription_status;
use zero2prod::routes::subscriptions::NewSubscriber;
use zero2prod::routes::subscriptions::SubscriptionPlan;
use zero2prod::routes::subscriptions_confirm::check_not_confirmed;
use zero2prod::routes::subscriptions_confirm::subscriber_id_from_token;
use zero2prod::routes::subscriptions_confirm::subscriber_status_from_record;
use zero2prod::routes::ConfirmationError;
use zero2prod::routes::SubscribeError;
use zero2prod::routes::SubscribeFormData;
use zero2prod::utils::see_other;

#[test]
fn a_status_is_read_as_it_is_stored() {
    assert_eq!(
        SubscriberStatus::parse("pending_confirmation"),
        Ok(SubscriberStatus::PendingConfirmation)
    );
    assert_eq!(SubscriberStatus::parse("confirmed"), Ok(SubscriberStatus::Confirmed));
    assert_eq!(
        SubscriberStatus::parse("unsubscribed"),
        Err("Invalid status representation: unsubscribed".to_string())
    );
    assert_eq!(
        SubscriberStatus::parse(""),
        Err("Invalid status representation: ".to_string())
    );
    assert_eq!(
        SubscriberStatus::parse("Confirmed"),
        Err("Invalid status representation: Confirmed".to_string())
    );
    assert_eq!(SubscriberStatus::Confirmed.as_str(), Some("confirmed"));
    assert_eq!(
        SubscriberStatus::PendingConfirmation.as_str(),
        Some("pending_confirmation")
    );
    assert_eq!(SubscriberStatus::Unsubscribed.as_str(), None);
}

#[test]
fn an_error_is_written_with_its_causes() {
    assert_eq!(error_chain_fmt("top", &vec![]), "top\n\n");
    assert_eq!(
        error_chain_fmt(
            "Failed to store the token",
            &vec!["connection closed".to_string(), "broken pipe".to_string()]
        ),
        "Failed to store the token\n\nCaused by:\n\tconnection closed\nCaused by:\n\tbroken pipe\n"
    );
}

#[test]
fn a_token_has_25_letters_and_digits() {
    for _ in 0..50 {
        let token = generate_subscription_token();
        assert_eq!(token.len(), 25);
        assert!(token.chars().all(|c| c.is_ascii_alphanumeric()), "{}", token);
    }
    assert_ne!(generate_subscription_token(), generate_subscription_token());
}

fn form_data(name: &str, email: &str) -> SubscribeFormData {
    SubscribeFormData { email: email.to_string(), name: name.to_string() }
}

#[test]
fn a_form_is_validated_name_first() {
    let subscriber = NewSubscriber::try_from(form_data("le guin", "ursula_le_guin@gmail.com")).unwrap();
    assert_eq!(subscriber.name.as_ref(), "le guin");
    assert_eq!(subscriber.email.as_ref(), "ursula_le_guin@gmail.com");
    assert_eq!(
        NewSubscriber::try_from(form_data("", "ursula_le_guin@gmail.com")).unwrap_err(),
        " is not a valid subscriber name!"
    );
    assert_eq!(
        NewSubscriber::try_from(form_data("Ursula", "")).unwrap_err(),
        "Invalid email: "
    );
    assert_eq!(
        NewSubscriber::try_from(form_data("Ursula", "definitley-not-an-email")).unwrap_err(),
        "Invalid email: definitley-not-an-email"
    );
    assert_eq!(
        NewSubscriber::try_from(form_data("{", "not-an-email")).unwrap_err(),
        "{ is not a valid subscriber name!"
    );
}

#[test]
fn a_subscription_depends_on_the_status_of_the_address() {
    assert_eq!(subscription_status(None), SubscriberStatus::Unsubscribed);
    assert_eq!(
        subscription_status(Some("pending_confirmation")),
        SubscriberStatus::PendingConfirmation
    );
    assert_eq!(subscription_status(Some("confirmed")), SubscriberStatus::Confirmed);
    assert_eq!(subscription_status(Some("gone")), SubscriberStatus::Unsubscribed);
    assert_eq!(
        plan_subscription(SubscriberStatus::Unsubscribed),
        SubscriptionPlan::InsertSubscriber
    );
    assert_eq!(
        plan_subscription(SubscriberStatus::PendingConfirmation),
        SubscriptionPlan::ResendConfirmation
    );
    assert_eq!(plan_subscription(SubscriberStatus::Confirmed), SubscriptionPlan::Reject);
}

#[test]
fn the_confirmation_email_carries_the_link() {
    let subscriber =
        NewSubscriber::try_from(form_data("le guin", "ursula_le_guin@gmail.com")).unwrap();
    let email = confirmation_email(subscriber, "http://127.0.0.1", "tokentokentokentokentoken");
    let link = "http://127.0.0.1/subscriptions/confirm?subscription_token=tokentokentokentokentoken";
    assert_eq!(email.recipient.as_ref(), "ursula_le_guin@gmail.com");
    assert_eq!(email.subject, "Welcome");
    assert_eq!(
        email.html_content,
        format!(
            "Welcome to our newsletter! <br/> Click <a href=\"{}\">here</a> to confirm your subscription.",
            link
        )
    );
    assert_eq!(
        email.text_content,
        format!("Welcome to our newsletter! Visit {} to confirm your subscription.", link)
    );
}

#[test]
fn errors_are_answered_with_their_status() {
    assert_eq!(SubscribeError::ValidationError("x".to_string()).status_code(), 400);
    assert_eq!(SubscribeError::UnexpectedError("x".to_string()).status_code(), 500);
    assert_eq!(ConfirmationError::ValidationError("x".to_string()).status_code(), 401);
    assert_eq!(ConfirmationError::AlreadySubscribed("x".to_string()).status_code(), 410);
    assert_eq!(ConfirmationError::UnexpectedError("x".to_string()).status_code(), 500);
    assert_eq!(BasicAuthError::Unauthorized("x".to_string()).status_code(), 401);
    assert_eq!(BasicAuthError::Unexpected("x".to_string()).status_code(), 500);
}

#[test]
fn a_confirmation_needs_a_known_token_and_an_open_subscription() {
    assert_eq!(subscriber_id_from_token(Some(9)), Ok(9));
    assert_eq!(
        subscriber_id_from_token(None),
        Err(ConfirmationError::ValidationError("No subscription found!".to_string()))
    );
    assert_eq!(check_not_confirmed(SubscriberStatus::PendingConfirmation), Ok(()));
    assert_eq!(check_not_confirmed(SubscriberStatus::Unsubscribed), Ok(()));
    assert_eq!(
        check_not_confirmed(SubscriberStatus::Confirmed),
        Err(ConfirmationError::AlreadySubscribed("Subscription already confirmed".to_string()))
    );
    assert_eq!(
        subscriber_status_from_record("confirmed"),
        Ok(SubscriberStatus::Confirmed)
    );
    assert_eq!(
        subscriber_status_from_record("pending_confirmation"),
        Ok(SubscriberStatus::PendingConfirmation)
    );
    assert_eq!(
        subscriber_status_from_record("?"),
        Err(ConfirmationError::UnexpectedError("Invalid status representation: ?".to_string()))
    );
}

#[test]
fn failed_authentication_is_answered_with_a_challenge() {
    let response = BasicAuthError::Unauthorized("no header".to_string()).error_response();
    assert_eq!(response.status_code(), 401);
    assert_eq!(
        response.headers(),
        &vec![HeaderPairRecord {
            name: "www-authenticate".to_string(),
            value: b"Basic realm=\"publish\"".to_vec(),
        }]
    );
    assert!(response.body_bytes().is_empty());
    let response = BasicAuthError::Unexpected("database down".to_string()).error_response();
    assert_eq!(response.status_code(), 500);
    assert!(response.headers().is_empty());
    assert!(response.body_bytes().is_empty());
}

#[test]
fn a_redirection_names_its_route() {
    let response = see_other("/login");
    assert_eq!(response.status_code(), 303);
    assert_eq!(
        response.headers(),
        &vec![HeaderPairRecord { name: "location".to_string(), value: b"/login".to_vec() }]
    );
    assert!(response.body_bytes().is_empty());
}

#[test]
fn the_login_form_shows_the_flash_message() {
    assert_eq!(login_error_html(None), "");
    assert_eq!(
        login_error_html(Some("Authentication failed")),
        "<p><i>Authentication failed</i></p>"
    );
}

#[test]
fn a_user_id_is_the_number_of_its_uuid() {
    let id = UserId(0xa1a2a3a4_b1b2_c1c2_d1d2_d3d4d5d6d7d8);
    assert_eq!(id.as_u128(), 0xa1a2a3a4_b1b2_c1c2_d1d2_d3d4d5d6d7d8);
    assert_eq!(id, id.clone());
}

#[test]
fn the_errors_of_a_form_are_set_in_paragraphs() {
    assert_eq!(zero2prod::utils::flash_errors_html(&vec![]), "");
    assert_eq!(
        zero2prod::utils::flash_errors_html(&vec![
            "The current password is incorrect.".to_string(),
            "again".to_string()
        ]),
        "<p><i>The current password is incorrect.</i></p>\n<p><i>again</i></p>\n"
    );
}
