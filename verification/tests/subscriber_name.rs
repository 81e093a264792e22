use zero2prod::domain::subscriber_name::contains_forbidden_character;
use zero2prod::domain::subscriber_name::is_blank_text;
use zero2prod::domain::subscriber_name::is_forbidden_character;
use zero2prod::domain::subscriber_name::name_passes;
use zero2prod::domain::is_valid_name;
use zero2prod::domain::SubscriberName;

#[test]
fn a_256_grapheme_long_name_is_valid() {
    let name = "\u{eb}".repeat(256);
    assert!(SubscriberName::parse(name).is_ok());
}

#[test]
fn a_name_longer_than_256_graphemes_is_rejected() {
    let name = "a".repeat(257);
    assert!(SubscriberName::parse(name).is_err());
}

#[test]
fn names_containing_an_invalid_character_are_rejected() {
    for name in &['/', '(', ')', '"', '<', '>', '\\', '{', '}'] {
        let name = name.to_string();
        assert!(SubscriberName::parse(name).is_err());
    }
}

#[test]
fn parsing_a_valid_name_successfully() {
    let name = "Gregory Sech".to_string();
    assert!(SubscriberName::parse(name).is_ok());
}

#[test]
fn length_is_counted_in_grapheme_clusters() {
    // 256 clusters of two characters each.
    let name = "e\u{301}".repeat(256);
    assert_eq!(name.chars().count(), 512);
    assert!(is_valid_name(&name));
    let name = "e\u{301}".repeat(257);
    assert!(!is_valid_name(&name));
}

#[test]
fn blank_names_are_rejected() {
    assert!(!is_valid_name(""));
    assert!(!is_valid_name(" "));
    assert!(!is_valid_name(" \t\n\u{a0}"));
    assert!(is_valid_name(" a "));
    assert!(is_blank_text(""));
    assert!(is_blank_text(" \u{2003} "));
    assert!(!is_blank_text(" x"));
}

#[test]
fn a_forbidden_character_anywhere_is_found() {
    assert!(contains_forbidden_character("le {guin"));
    assert!(contains_forbidden_character("le guin>"));
    assert!(!contains_forbidden_character("le guin"));
    assert!(!contains_forbidden_character(""));
    assert!(is_forbidden_character('\\'));
    assert!(!is_forbidden_character('['));
}

#[test]
fn a_name_passes_on_all_three_findings() {
    assert!(name_passes(false, 256, false));
    assert!(name_passes(false, 0, false));
    assert!(!name_passes(false, 257, false));
    assert!(!name_passes(true, 1, false));
    assert!(!name_passes(false, 1, true));
}

#[test]
fn a_rejected_name_is_named_in_the_message() {
    assert_eq!(
        SubscriberName::parse("le (guin".to_string()),
        Err("le (guin is not a valid subscriber name!".to_string())
    );
}

#[test]
fn an_accepted_name_keeps_its_text() {
    let name = SubscriberName::parse("le guin".to_string()).unwrap();
    assert_eq!(name.as_ref(), "le guin");
}
