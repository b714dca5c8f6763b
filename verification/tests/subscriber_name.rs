use zero2prod::domain::subscriber_name::SubscriberName;

#[test]
fn a_256_grapheme_long_name_is_valid() {
    let name = "a".repeat(256);
    assert!(SubscriberName::parse(name).is_ok());
}

#[test]
fn a_name_longer_than_256_is_rejected() {
    let name = "a".repeat(257);
    assert!(SubscriberName::parse(name).is_err());
}

#[test]
fn whitespace_only_name_is_rejected() {
    let name = "    ".to_string();
    assert!(SubscriberName::parse(name).is_err());
}

#[test]
fn names_containing_an_invalid_character_are_rejected() {
    let invalid_characters = ['/', '(', ')', '"', '\'', '<', '>', '\\', '{', '}', '[', ']'];
    for name in &invalid_characters {
        assert!(SubscriberName::parse(name.to_string()).is_err())
    }
}

#[test]
fn a_valid_name_is_parsed_successfully() {
    let name = "Ursula Le Guin".to_string();
    assert!(SubscriberName::parse(name).is_ok());
}

#[test]
fn graphemes_are_counted_not_code_points() {
    // Each grapheme is two code points (e + combining acute): 256 graphemes
    // but 512 chars.  Counting code points would wrongly reject this name.
    let name = "e\u{0301}".repeat(256);
    assert_eq!(name.chars().count(), 512);
    assert!(SubscriberName::parse(name).is_ok());
    let too_long = "e\u{0301}".repeat(257);
    assert!(SubscriberName::parse(too_long).is_err());
}

#[test]
fn a_rejected_name_is_reported_in_the_error() {
    let err = SubscriberName::parse("<script>".to_string()).unwrap_err();
    assert_eq!(err, "<script> is not a valid subscriber name");
}

#[test]
fn the_parsed_name_is_handed_back_unchanged() {
    let name = SubscriberName::parse("Ursula Le Guin".to_string()).unwrap();
    assert_eq!(name.inner(), "Ursula Le Guin");
}
