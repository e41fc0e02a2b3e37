use newsletter_delivery::domain::{SubscriberEmail, SubscriberName};
use newsletter_delivery::mail::{bearer_authorization, MailSendRequest, OutboundEmail};
use newsletter_delivery::newsletter::{flash_messages_html, newsletter_emails, BodyData};
use newsletter_delivery::subscriber::parse_confirmed_subscribers;

fn email(to: &str, name: &str) -> OutboundEmail {
    OutboundEmail {
        recipient: SubscriberEmail::parse(to.to_string()).ok().unwrap(),
        recipient_name: SubscriberName::parse(name.to_string()).ok().unwrap(),
        subject: "Hello".into(),
        html_content: "<p>Hi</p>".into(),
        text_content: "Hi".into(),
    }
}

#[test]
fn request_carries_the_message() {
    let sender = SubscriberEmail::parse("news@example.com".to_string()).ok().unwrap();
    let r = MailSendRequest::for_email(&sender, "Newsletter", &email("a@example.com", "Alice"));
    assert_eq!(r.personalizations.len(), 1);
    assert_eq!(r.personalizations[0].subject, "Hello");
    assert_eq!(r.personalizations[0].to.len(), 1);
    assert_eq!(r.personalizations[0].to[0].email, "a@example.com");
    assert_eq!(r.personalizations[0].to[0].name, "Alice");
    assert_eq!(r.content.len(), 2);
    assert_eq!(r.content[0].content_type, "text/plain");
    assert_eq!(r.content[0].value, "Hi");
    assert_eq!(r.content[1].content_type, "text/html");
    assert_eq!(r.content[1].value, "<p>Hi</p>");
    assert_eq!(r.from.email, "news@example.com");
    assert_eq!(r.from.name, "Newsletter");
    assert_eq!(r.reply_to.email, "news@example.com");
}

#[test]
fn authorization_is_a_bearer_token() {
    assert_eq!(bearer_authorization("abc"), "Bearer abc");
    assert_eq!(bearer_authorization(""), "Bearer ");
}

#[test]
fn publishing_skips_invalid_subscribers() {
    let rows = vec![
        ("a@b.c".to_string(), "A".to_string()),
        ("bad".to_string(), "B".to_string()),
        ("c@d.e".to_string(), "C".to_string()),
    ];
    let subs = parse_confirmed_subscribers(&rows);
    let body = BodyData {
        title: "T".into(),
        content_html: "<b>h</b>".into(),
        content_text: "t".into(),
    };
    let emails = newsletter_emails(&subs, &body);
    assert_eq!(emails.len(), 2);
    assert_eq!(emails[0].recipient.as_str(), "a@b.c");
    assert_eq!(emails[1].recipient.as_str(), "c@d.e");
    assert_eq!(emails[1].recipient_name.as_str(), "C");
    assert_eq!(emails[1].subject, "T");
    assert_eq!(emails[1].html_content, "<b>h</b>");
    assert_eq!(emails[1].text_content, "t");
    assert!(newsletter_emails(&Vec::new(), &body).is_empty());
}

#[test]
fn notices_are_rendered_in_order() {
    assert_eq!(flash_messages_html(&vec![]), "");
    let html = flash_messages_html(&vec!["one".to_string(), "two".to_string()]);
    assert_eq!(html, "<p><i>one</i></p>\n<p><i>two</i></p>\n");
}
