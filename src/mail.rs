//! The one email that a delivery sends, and the provider request that carries it.
use vstd::prelude::*;
use crate::domain::{SubscriberEmail, SubscriberName};

verus! {

/// One address on the provider request, with its display name.
pub struct Subscriber {
    pub email: String,
    pub name: String,
}

/// The recipients of a message and its subject.
pub struct Personalization {
    pub to: Vec<Subscriber>,
    pub subject: String,
}

/// One body part: its media type and its text.
pub struct Content {
    pub content_type: String,
    pub value: String,
}

/// The body of the provider's mail-send request.
pub struct MailSendRequest {
    pub personalizations: Vec<Personalization>,
    pub content: Vec<Content>,
    pub from: Subscriber,
    pub reply_to: Subscriber,
}

/// The message that one delivery sends to one subscriber.
pub struct OutboundEmail {
    pub recipient: SubscriberEmail,
    pub recipient_name: SubscriberName,
    pub subject: String,
    pub html_content: String,
    pub text_content: String,
}

/// Media type of the plain-text body part.
pub const TEXT_PLAIN: &'static str = "text/plain";

/// Media type of the HTML body part.
pub const TEXT_HTML: &'static str = "text/html";

/// Prefix of the authorization header's value.
pub const BEARER_PREFIX: &'static str = "Bearer ";

/// Path of the provider's mail-send endpoint, relative to its base URL.
pub const MAIL_SEND_PATH: &'static str = "/v3/mail/send";

fn text(s: &str) -> (r: String)
    ensures
        r@ == s@,
{
    String::from_str(s)
}

fn address(email: &str, name: &str) -> (r: Subscriber)
    ensures
        r.email@ == email@,
        r.name@ == name@,
{
    Subscriber { email: text(email), name: text(name) }
}

/// Says that `r` holds exactly the fields of a request that sends the message
/// `(to, to_name, subject, html, plain)` from `sender` (shown as `sender_name`),
/// with replies going back to the sender.
pub open spec fn is_request_for(
    r: MailSendRequest,
    sender: Seq<char>,
    sender_name: Seq<char>,
    to: Seq<char>,
    to_name: Seq<char>,
    subject: Seq<char>,
    html: Seq<char>,
    plain: Seq<char>,
) -> bool {
    &&& r.personalizations@.len() == 1
    &&& r.personalizations@[0].to@.len() == 1
    &&& r.personalizations@[0].to@[0].email@ == to
    &&& r.personalizations@[0].to@[0].name@ == to_name
    &&& r.personalizations@[0].subject@ == subject
    &&& r.content@.len() == 2
    &&& r.content@[0].content_type@ == TEXT_PLAIN@
    &&& r.content@[0].value@ == plain
    &&& r.content@[1].content_type@ == TEXT_HTML@
    &&& r.content@[1].value@ == html
    &&& r.from.email@ == sender
    &&& r.from.name@ == sender_name
    &&& r.reply_to.email@ == sender
    &&& r.reply_to.name@ == sender_name
}

impl MailSendRequest {
    /// Builds the request that delivers `email` from `sender`.
    pub fn for_email(sender: &SubscriberEmail, sender_name: &str, email: &OutboundEmail) -> (r:
        MailSendRequest)
        ensures
            is_request_for(
                r,
                sender@,
                sender_name@,
                email.recipient@,
                email.recipient_name@,
                email.subject@,
                email.html_content@,
                email.text_content@,
            ),
    {
        let to = address(email.recipient.as_str(), email.recipient_name.as_str());
        let personalization = Personalization {
            to: vec![to],
            subject: email.subject.clone(),
        };
        let plain = Content { content_type: text(TEXT_PLAIN), value: email.text_content.clone() };
        let html = Content { content_type: text(TEXT_HTML), value: email.html_content.clone() };
        let sender_address = sender.as_str();
        MailSendRequest {
            personalizations: vec![personalization],
            content: vec![plain, html],
            from: address(sender_address, sender_name),
            reply_to: address(sender_address, sender_name),
        }
    }
}

/// The authorization header's value for an API token.
pub fn bearer_authorization(token: &str) -> (r: String)
    ensures
        r@ == BEARER_PREFIX@ + token@,
{
    let mut r = text(BEARER_PREFIX);
    r.append(token);
    r
}

} // verus!
