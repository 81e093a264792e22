use fake::faker::internet::en::SafeEmail;
use fake::Fake;
use zero2prod::domain::SubscriberEmail;

#[test]
fn empty_string_is_rejected() {
    let email = "".to_string();
    assert!(SubscriberEmail::parse(email).is_err());
}

#[test]
fn email_missing_at_symbol_is_rejected() {
    let email = "greg.domain.com".to_string();
    assert!(SubscriberEmail::parse(email).is_err());
}

#[test]
fn email_missing_subject_is_rejected() {
    let email = "@domain.com".to_string();
    assert!(SubscriberEmail::parse(email).is_err());
}

#[test]
fn email_accepted_when_valid() {
    let email = SafeEmail().fake();
    assert!(SubscriberEmail::parse(email).is_ok());
}

#[test]
fn generated_emails_are_accepted() {
    for _ in 0..200 {
        let email: String = SafeEmail().fake();
        assert!(SubscriberEmail::parse(email.clone()).is_ok(), "{}", email);
    }
}

#[test]
fn an_accepted_email_keeps_its_text() {
    let email = SubscriberEmail::parse("ursula_le_guin@gmail.com".to_string()).unwrap();
    assert_eq!(email.as_ref(), "ursula_le_guin@gmail.com");
    assert_eq!(email.to_string(), "ursula_le_guin@gmail.com");
    assert_eq!(email.clone(), email);
}

#[test]
fn a_rejected_email_is_named_in_the_message() {
    assert_eq!(
        SubscriberEmail::parse("definitley-not-an-email".to_string()),
        Err("Invalid email: definitley-not-an-email".to_string())
    );
}

#[test]
fn the_verdict_decides_between_address_and_message() {
    let accepted = SubscriberEmail::from_validation("anything".to_string(), true).unwrap();
    assert_eq!(accepted.as_ref(), "anything");
    assert_eq!(
        SubscriberEmail::from_validation("a@b.c".to_string(), false),
        Err("Invalid email: a@b.c".to_string())
    );
}
