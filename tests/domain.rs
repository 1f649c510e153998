use scoop::domain::{is_valid_email_address, is_valid_subscriber_name, FormData, NewSubscriber, SubscriberEmail, SubscriberName};

#[test]
fn valid_addresses_are_accepted() {
    assert!(is_valid_email_address("ursula_le_guin@gmail.com"));
    assert!(is_valid_email_address("a@b.co"));
    let e = SubscriberEmail::parse("ursula_le_guin@gmail.com".to_string()).unwrap();
    assert_eq!(e.as_str(), "ursula_le_guin@gmail.com");
}

#[test]
fn malformed_addresses_are_refused() {
    for bad in ["", "definitely-not-an-email", "@domain.com", "ursula.com", "a@@b.com", "a@b@c.com",
        "a b@c.com", "a@bcom", "a@.com", "a@com.", "a@b."] {
        assert!(!is_valid_email_address(bad), "{}", bad);
    }
    let err = SubscriberEmail::parse("ursula.com".to_string()).err().unwrap();
    assert_eq!(err, "ursula.com is not a valid subscriber email.");
}

#[test]
fn names_are_checked() {
    assert!(is_valid_subscriber_name("Ursula Le Guin"));
    assert!(is_valid_subscriber_name(&"a".repeat(256)));
    assert!(!is_valid_subscriber_name(&"a".repeat(257)));
    assert!(!is_valid_subscriber_name(""));
    assert!(!is_valid_subscriber_name(" \t\n"));
    for c in ['/', '(', ')', '"', '<', '>', '\\', '{', '}'] {
        assert!(!is_valid_subscriber_name(&format!("Ursula{}", c)));
    }
    let err = SubscriberName::parse("   ".to_string()).err().unwrap();
    assert_eq!(err, "    is not a valid subscriber name.");
    assert_eq!(SubscriberName::parse("le guin".to_string()).unwrap().as_str(), "le guin");
}

#[test]
fn new_subscriber_from_form() {
    let ok = NewSubscriber::try_from(FormData {
        email: "ursula_le_guin@gmail.com".to_string(),
        name: "le guin".to_string(),
    })
    .unwrap();
    assert_eq!(ok.email.as_str(), "ursula_le_guin@gmail.com");
    assert_eq!(ok.name.as_str(), "le guin");
    let empty_name = NewSubscriber::try_from(FormData {
        email: "ursula_le_guin@gmail.com".to_string(),
        name: "".to_string(),
    });
    assert_eq!(empty_name.err().unwrap(), " is not a valid subscriber name.");
    let empty_email = NewSubscriber::try_from(FormData { email: "".to_string(), name: "Ursula".to_string() });
    assert_eq!(empty_email.err().unwrap(), " is not a valid subscriber email.");
    let bad_email = NewSubscriber::try_from(FormData {
        email: "definitely-not-an-email".to_string(),
        name: "Ursula".to_string(),
    });
    assert_eq!(bad_email.err().unwrap(), "definitely-not-an-email is not a valid subscriber email.");
}
