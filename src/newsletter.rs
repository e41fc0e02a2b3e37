//! Publishing an issue directly: who receives it, and the notices shown above
//! the publishing form.
use vstd::prelude::*;
use crate::mail::OutboundEmail;
use crate::subscriber::{ConfirmedSubscriber, SubscriberError};

verus! {

/// The issue submitted through the publishing form.
pub struct BodyData {
    pub title: String,
    pub content_html: String,
    pub content_text: String,
}

/// The `(address, name)` of each subscriber that passed validation, in order;
/// rejected rows are skipped.
pub open spec fn deliverable(s: Seq<Result<ConfirmedSubscriber, SubscriberError>>) -> Seq<
    (Seq<char>, Seq<char>),
>
    decreases s.len(),
{
    if s.len() == 0 {
        Seq::empty()
    } else {
        let before = deliverable(s.drop_last());
        match s.last() {
            Ok(c) => before.push((c.email@, c.name@)),
            Err(_) => before,
        }
    }
}

/// Says that `m` is the issue `(title, html, text)` addressed to `to`.
pub open spec fn is_issue_email(
    m: OutboundEmail,
    to: (Seq<char>, Seq<char>),
    title: Seq<char>,
    html: Seq<char>,
    text: Seq<char>,
) -> bool {
    &&& m.recipient@ == to.0
    &&& m.recipient_name@ == to.1
    &&& m.subject@ == title
    &&& m.html_content@ == html
    &&& m.text_content@ == text
}

/// The emails that publishing `body` sends: one per subscriber that passed
/// validation, in order.
pub fn newsletter_emails(
    subscribers: &Vec<Result<ConfirmedSubscriber, SubscriberError>>,
    body: &BodyData,
) -> (r: Vec<OutboundEmail>)
    ensures
        r@.len() == deliverable(subscribers@).len(),
        forall|i: int|
            0 <= i < r@.len() ==> is_issue_email(
                #[trigger] r@[i],
                deliverable(subscribers@)[i],
                body.title@,
                body.content_html@,
                body.content_text@,
            ),
{
    let title = body.title.as_str();
    let html = body.content_html.as_str();
    let text = body.content_text.as_str();
    let mut r: Vec<OutboundEmail> = Vec::new();
    let mut i: usize = 0;
    while i < subscribers.len()
        invariant
            i <= subscribers@.len(),
            r@.len() == deliverable(subscribers@.take(i as int)).len(),
            forall|j: int|
                0 <= j < r@.len() ==> is_issue_email(
                    #[trigger] r@[j],
                    deliverable(subscribers@.take(i as int))[j],
                    title@,
                    html@,
                    text@,
                ),
        decreases subscribers@.len() - i,
    {
        let ghost before = subscribers@.take(i as int);
        assert(subscribers@.take(i + 1).drop_last() == before);
        match &subscribers[i] {
            Ok(c) => {
                let m = OutboundEmail {
                    recipient: c.email.duplicate(),
                    recipient_name: c.name.duplicate(),
                    subject: String::from_str(title),
                    html_content: String::from_str(html),
                    text_content: String::from_str(text),
                };
                r.push(m);
            },
            Err(_) => {},
        }
        i = i + 1;
    }
    assert(subscribers@.take(subscribers@.len() as int) == subscribers@);
    r
}

/// Markup of one notice.
pub open spec fn notice_html(m: Seq<char>) -> Seq<char> {
    "<p><i>"@ + m + "</i></p>\n"@
}

/// Markup of all notices, in order.
pub open spec fn notices_html(ms: Seq<Seq<char>>) -> Seq<char>
    decreases ms.len(),
{
    if ms.len() == 0 {
        Seq::empty()
    } else {
        notices_html(ms.drop_last()) + notice_html(ms.last())
    }
}

/// Renders the notices shown above the publishing form.
pub fn flash_messages_html(messages: &Vec<String>) -> (r: String)
    ensures
        r@ == notices_html(messages@.map_values(|m: String| m@)),
{
    let ghost ms = messages@.map_values(|m: String| m@);
    let mut r = String::new();
    let mut i: usize = 0;
    while i < messages.len()
        invariant
            i <= messages@.len(),
            ms == messages@.map_values(|m: String| m@),
            r@ == notices_html(ms.take(i as int)),
        decreases messages@.len() - i,
    {
        assert(ms.take(i + 1).drop_last() == ms.take(i as int));
        assert(ms.take(i + 1).last() == messages@[i as int]@);
        r.append("<p><i>");
        r.append(messages[i].as_str());
        r.append("</i></p>\n");
        proof {
            assert(r@ == notices_html(ms.take(i as int)) + notice_html(messages@[i as int]@));
        }
        i = i + 1;
    }
    assert(ms.take(messages@.len() as int) == ms);
    r
}

} // verus!
