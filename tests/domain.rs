use zero2prod::domain::{NewSubscriber, SubscriberEmail, SubscriberName, ValidationError, MAX_NAME_LEN};

#[test]
fn a_name_of_the_maximum_length_is_accepted() {
    let name = "a".repeat(MAX_NAME_LEN);
    let parsed = SubscriberName::parse(&name).unwrap();
    assert_eq!(parsed.as_str(), name);
}

#[test]
fn a_name_longer_than_the_maximum_is_refused() {
    let name = "a".repeat(MAX_NAME_LEN + 1);
    assert_eq!(SubscriberName::parse(&name).unwrap_err(), ValidationError::NameTooLong);
}

#[test]
fn the_length_limit_counts_characters_not_bytes() {
    let name = "\u{e9}".repeat(MAX_NAME_LEN);
    assert!(SubscriberName::parse(&name).is_ok());
}

#[test]
fn empty_and_whitespace_names_are_refused() {
    for name in ["", " ", "\t\n", "\u{3000}\u{a0}"] {
        assert_eq!(SubscriberName::parse(name).unwrap_err(), ValidationError::EmptyName);
    }
}

#[test]
fn names_with_forbidden_characters_are_refused() {
    for c in ['/', '(', ')', '"', '<', '>', '\\', '{', '}'] {
        let name = format!("ursula{}", c);
        assert_eq!(
            SubscriberName::parse(&name).unwrap_err(),
            ValidationError::ForbiddenCharacter
        );
    }
}

#[test]
fn a_name_is_kept_as_given() {
    let parsed = SubscriberName::parse(" Ursula Le Guin ").unwrap();
    assert_eq!(parsed.as_str(), " Ursula Le Guin ");
}

#[test]
fn a_plain_address_is_accepted() {
    let parsed = SubscriberEmail::parse("ursula@domain.com").unwrap();
    assert_eq!(parsed.as_str(), "ursula@domain.com");
}

#[test]
fn malformed_addresses_are_refused() {
    for email in ["", "ursuladomain.com", "@domain.com", "ursula@", "a@b@c", "ur sula@d.com", "u\u{7}@d.com"] {
        assert_eq!(SubscriberEmail::parse(email).unwrap_err(), ValidationError::InvalidEmail);
    }
}

#[test]
fn the_shortest_address_is_accepted() {
    assert!(SubscriberEmail::parse("a@b").is_ok());
}

#[test]
fn a_new_subscriber_needs_both_fields_valid() {
    let s = NewSubscriber::parse("le something", "a@b.com").unwrap();
    assert_eq!(s.name.as_str(), "le something");
    assert_eq!(s.email.as_str(), "a@b.com");
    assert_eq!(NewSubscriber::parse("", "a@b.com").unwrap_err(), ValidationError::EmptyName);
    assert_eq!(NewSubscriber::parse("bob", "ab.com").unwrap_err(), ValidationError::InvalidEmail);
}
