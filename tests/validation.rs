use newsletter_delivery::domain::{is_valid_email, is_valid_name, SubscriberEmail, SubscriberName};
use newsletter_delivery::subscriber::{parse_confirmed_subscribers, ConfirmedSubscriber, SubscriberError};

#[test]
fn emails_are_checked() {
    assert!(is_valid_email("a@example.com"));
    assert!(is_valid_email("x@y"));
    assert!(!is_valid_email("not-an-email"));
    assert!(!is_valid_email(""));
    assert!(!is_valid_email("@example.com"));
    assert!(!is_valid_email("a@"));
    assert!(!is_valid_email("a@b@c"));
    assert!(!is_valid_email("a b@c.d"));
}

#[test]
fn names_are_checked() {
    assert!(is_valid_name("Ursula Le Guin"));
    assert!(!is_valid_name(""));
    assert!(!is_valid_name("   "));
    assert!(!is_valid_name("<script>"));
    assert!(!is_valid_name("a/b"));
    assert!(is_valid_name(&"a".repeat(256)));
    assert!(!is_valid_name(&"a".repeat(257)));
}

#[test]
fn parse_keeps_the_text() {
    let e = SubscriberEmail::parse("a@example.com".to_string()).ok().unwrap();
    assert_eq!(e.as_str(), "a@example.com");
    let n = SubscriberName::parse("Alice".to_string()).ok().unwrap();
    assert_eq!(n.as_str(), "Alice");
    assert_eq!(SubscriberEmail::parse("bad".to_string()).err().unwrap(), "bad");
    assert_eq!(SubscriberName::parse("".to_string()).err().unwrap(), "");
}

#[test]
fn subscriber_errors_name_the_first_bad_field() {
    match ConfirmedSubscriber::parse("bad".into(), "".into()) {
        Err(SubscriberError::InvalidEmail(e)) => assert_eq!(e, "bad"),
        _ => panic!("expected an invalid email"),
    }
    match ConfirmedSubscriber::parse("a@b.c".into(), "{x}".into()) {
        Err(SubscriberError::InvalidName(n)) => assert_eq!(n, "{x}"),
        _ => panic!("expected an invalid name"),
    }
    let ok = ConfirmedSubscriber::parse("a@b.c".into(), "Al".into()).ok().unwrap();
    assert_eq!(ok.email.as_str(), "a@b.c");
    assert_eq!(ok.name.as_str(), "Al");
}

#[test]
fn rows_are_checked_in_order() {
    let rows = vec![
        ("a@b.c".to_string(), "A".to_string()),
        ("bad".to_string(), "B".to_string()),
        ("c@d.e".to_string(), "C".to_string()),
    ];
    let r = parse_confirmed_subscribers(&rows);
    assert_eq!(r.len(), 3);
    assert!(r[0].is_ok());
    assert!(r[1].is_err());
    assert_eq!(r[2].as_ref().ok().unwrap().name.as_str(), "C");
}
