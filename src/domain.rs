//! Validated subscriber identity: an email address and a display name.
use vstd::prelude::*;

verus! {

/// Characters that a display name may not hold.
pub open spec fn is_forbidden_name_char(c: char) -> bool {
    c == '/' || c == '(' || c == ')' || c == '"' || c == '<' || c == '>' || c == '\\' || c == '{'
        || c == '}'
}

/// Whitespace, as far as validation is concerned.
pub open spec fn is_blank_char(c: char) -> bool {
    c == ' ' || c == '\t' || c == '\n' || c == '\r'
}

/// Longest accepted display name, in characters.
pub const MAX_NAME_LENGTH: usize = 256;

/// A display name is accepted when it is not blank, holds at most
/// `MAX_NAME_LENGTH` characters and none of the forbidden ones.
pub open spec fn valid_name(s: Seq<char>) -> bool {
    &&& s.len() <= MAX_NAME_LENGTH
    &&& exists|i: int| 0 <= i < s.len() && !is_blank_char(#[trigger] s[i])
    &&& forall|i: int| 0 <= i < s.len() ==> !is_forbidden_name_char(#[trigger] s[i])
}

/// An address is accepted when it holds no whitespace and exactly one `@`,
/// with at least one character on each side of it.
pub open spec fn valid_email(s: Seq<char>) -> bool {
    &&& forall|i: int| 0 <= i < s.len() ==> !is_blank_char(#[trigger] s[i])
    &&& exists|p: int|
        0 < p < s.len() - 1 && #[trigger] s[p] == '@' && forall|i: int|
            0 <= i < s.len() && #[trigger] s[i] == '@' ==> i == p
}

fn is_blank(c: char) -> (r: bool)
    ensures
        r == is_blank_char(c),
{
    c == ' ' || c == '\t' || c == '\n' || c == '\r'
}

fn is_forbidden(c: char) -> (r: bool)
    ensures
        r == is_forbidden_name_char(c),
{
    c == '/' || c == '(' || c == ')' || c == '"' || c == '<' || c == '>' || c == '\\' || c == '{'
        || c == '}'
}

/// Checks `valid_email` on a string.
pub fn is_valid_email(s: &str) -> (r: bool)
    ensures
        r == valid_email(s@),
{
    let n = s.unicode_len();
    let mut i: usize = 0;
    let mut first_at: Option<usize> = None;
    let mut repeated = false;
    let mut blank = false;
    while i < n
        invariant
            n == s@.len(),
            i <= n,
            blank <==> exists|j: int| 0 <= j < i && is_blank_char(#[trigger] s@[j]),
            first_at is None ==> forall|j: int| 0 <= j < i ==> #[trigger] s@[j] != '@',
            first_at matches Some(p) ==> {
                &&& p < i
                &&& s@[p as int] == '@'
                &&& forall|j: int| 0 <= j < p ==> #[trigger] s@[j] != '@'
                &&& !repeated ==> forall|j: int| p < j < i ==> #[trigger] s@[j] != '@'
                &&& repeated ==> exists|j: int| p < j < i && #[trigger] s@[j] == '@'
            },
            first_at is None ==> !repeated,
        decreases n - i,
    {
        let c = s.get_char(i);
        if is_blank(c) {
            blank = true;
        }
        if c == '@' {
            match first_at {
                None => {
                    first_at = Some(i);
                },
                Some(_) => {
                    repeated = true;
                },
            }
        }
        i = i + 1;
    }
    if blank {
        return false;
    }
    match first_at {
        None => false,
        Some(p) => {
            if repeated {
                proof {
                    let j = choose|j: int| p < j < n && #[trigger] s@[j] == '@';
                    assert(s@[j] == '@');
                }
                false
            } else {
                let r = 0 < p && p + 1 < n;
                proof {
                    if r {
                        assert(s@[p as int] == '@');
                    } else {
                        assert forall|q: int|
                            0 < q < s@.len() - 1 && #[trigger] s@[q] == '@' implies !(forall|
                            k: int,
                        |
                            0 <= k < s@.len() && #[trigger] s@[k] == '@' ==> k == q) by {
                            assert(s@[p as int] == '@');
                        }
                    }
                }
                r
            }
        },
    }
}

/// Checks `valid_name` on a string.
pub fn is_valid_name(s: &str) -> (r: bool)
    ensures
        r == valid_name(s@),
{
    let n = s.unicode_len();
    if n > MAX_NAME_LENGTH {
        return false;
    }
    let mut i: usize = 0;
    let mut visible = false;
    while i < n
        invariant
            n == s@.len(),
            i <= n,
            visible <==> exists|j: int| 0 <= j < i && !is_blank_char(#[trigger] s@[j]),
            forall|j: int| 0 <= j < i ==> !is_forbidden_name_char(#[trigger] s@[j]),
        decreases n - i,
    {
        let c = s.get_char(i);
        if is_forbidden(c) {
            return false;
        }
        if !is_blank(c) {
            visible = true;
        }
        i = i + 1;
    }
    visible
}

/// A subscriber's email address that passed `valid_email`.
pub struct SubscriberEmail {
    address: String,
}

impl View for SubscriberEmail {
    type V = Seq<char>;

    closed spec fn view(&self) -> Seq<char> {
        self.address@
    }
}

impl SubscriberEmail {
    #[verifier::type_invariant]
    closed spec fn inv(&self) -> bool {
        valid_email(self.address@)
    }

    /// Accepts `s` exactly when it is a valid address.
    pub fn parse(s: String) -> (r: Result<SubscriberEmail, String>)
        ensures
            r is Ok <==> valid_email(s@),
            r matches Ok(e) ==> e@ == s@,
            r matches Err(m) ==> m@ == s@,
    {
        if is_valid_email(s.as_str()) {
            Ok(SubscriberEmail { address: s })
        } else {
            Err(s)
        }
    }

    pub fn as_str(&self) -> (r: &str)
        ensures
            r@ == self@,
            valid_email(self@),
    {
        proof {
            use_type_invariant(self);
        }
        self.address.as_str()
    }

    pub fn duplicate(&self) -> (r: SubscriberEmail)
        ensures
            r@ == self@,
    {
        proof {
            use_type_invariant(self);
        }
        SubscriberEmail { address: self.address.clone() }
    }
}

/// A subscriber's display name that passed `valid_name`.
pub struct SubscriberName {
    name: String,
}

impl View for SubscriberName {
    type V = Seq<char>;

    closed spec fn view(&self) -> Seq<char> {
        self.name@
    }
}

impl SubscriberName {
    #[verifier::type_invariant]
    closed spec fn inv(&self) -> bool {
        valid_name(self.name@)
    }

    /// Accepts `s` exactly when it is a valid display name.
    pub fn parse(s: String) -> (r: Result<SubscriberName, String>)
        ensures
            r is Ok <==> valid_name(s@),
            r matches Ok(n) ==> n@ == s@,
            r matches Err(m) ==> m@ == s@,
    {
        if is_valid_name(s.as_str()) {
            Ok(SubscriberName { name: s })
        } else {
            Err(s)
        }
    }

    pub fn as_str(&self) -> (r: &str)
        ensures
            r@ == self@,
            valid_name(self@),
    {
        proof {
            use_type_invariant(self);
        }
        self.name.as_str()
    }

    pub fn duplicate(&self) -> (r: SubscriberName)
        ensures
            r@ == self@,
    {
        proof {
            use_type_invariant(self);
        }
        SubscriberName { name: self.name.clone() }
    }
}

} // verus!
