//! Subscriber rows as stored, checked into validated subscribers.
use vstd::prelude::*;
use crate::domain::{SubscriberEmail, SubscriberName, valid_email, valid_name};

verus! {

/// The contact details submitted through the signup form, as typed.
pub struct FormData {
    pub email: String,
    pub name: String,
}

/// A subscriber whose stored address and name both passed validation.
pub struct ConfirmedSubscriber {
    pub email: SubscriberEmail,
    pub name: SubscriberName,
}

/// Why stored contact details were rejected; holds the rejected text.
pub enum SubscriberError {
    InvalidEmail(String),
    InvalidName(String),
}

/// Says that `r` is what checking the stored pair `(email, name)` gives: the
/// subscriber where both are valid, else the first rejected field.
pub open spec fn parsed_as(
    email: Seq<char>,
    name: Seq<char>,
    r: Result<ConfirmedSubscriber, SubscriberError>,
) -> bool {
    match r {
        Ok(s) => valid_email(email) && valid_name(name) && s.email@ == email && s.name@ == name,
        Err(SubscriberError::InvalidEmail(e)) => !valid_email(email) && e@ == email,
        Err(SubscriberError::InvalidName(n)) => valid_email(email) && !valid_name(name) && n@
            == name,
    }
}

impl ConfirmedSubscriber {
    /// Checks a stored address and name.
    pub fn parse(email: String, name: String) -> (r: Result<ConfirmedSubscriber, SubscriberError>)
        ensures
            parsed_as(email@, name@, r),
    {
        let email = match SubscriberEmail::parse(email) {
            Ok(e) => e,
            Err(e) => {
                return Err(SubscriberError::InvalidEmail(e));
            },
        };
        match SubscriberName::parse(name) {
            Ok(name) => Ok(ConfirmedSubscriber { email, name }),
            Err(n) => Err(SubscriberError::InvalidName(n)),
        }
    }
}

/// Checks each stored `(email, name)` row, keeping the order of the rows.
pub fn parse_confirmed_subscribers(rows: &Vec<(String, String)>) -> (r: Vec<
    Result<ConfirmedSubscriber, SubscriberError>,
>)
    ensures
        r@.len() == rows@.len(),
        forall|i: int| 0 <= i < rows@.len() ==> parsed_as(#[trigger] rows@[i].0@, rows@[i].1@, r@[i]),
{
    let mut r: Vec<Result<ConfirmedSubscriber, SubscriberError>> = Vec::new();
    let mut i: usize = 0;
    while i < rows.len()
        invariant
            i <= rows@.len(),
            r@.len() == i,
            forall|j: int| 0 <= j < i ==> parsed_as(#[trigger] rows@[j].0@, rows@[j].1@, r@[j]),
        decreases rows@.len() - i,
    {
        let parsed = ConfirmedSubscriber::parse(rows[i].0.clone(), rows[i].1.clone());
        r.push(parsed);
        i = i + 1;
    }
    r
}

} // verus!
