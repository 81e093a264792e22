//! Email addresses of subscribers.

use validator::ValidateEmail;
use vstd::prelude::*;
use vstd::string::*;

verus! {

/// Whether the `validator` crate accepts `address` as an email address.
pub uninterp spec fn email_is_valid(address: Seq<char>) -> bool;

/// Calls `validator::ValidateEmail::validate_email` on `address`.
///
/// The answer depends on the characters of `address` alone; it is given the
/// name [`email_is_valid`]. The crate refuses the empty string and every
/// string without an `@` before it looks any further.
#[verifier::external_body]
fn validate_email(address: &String) -> (valid: bool)
    ensures
        valid == email_is_valid(address@),
        valid ==> address@.len() > 0 && address@.contains('@'),
{
    address.validate_email()
}

/// What a refused address is answered with.
pub open spec fn invalid_email_message(address: Seq<char>) -> Seq<char> {
    "Invalid email: "@ + address
}

/// An email address that went through validation.
#[derive(Debug, PartialEq, Eq)]
pub struct SubscriberEmail(String);

impl View for SubscriberEmail {
    type V = Seq<char>;

    closed spec fn view(&self) -> Seq<char> {
        self.0@
    }
}

impl Clone for SubscriberEmail {
    fn clone(&self) -> (copy: Self)
        ensures
            copy@ == self@,
    {
        SubscriberEmail(self.0.clone())
    }
}

impl SubscriberEmail {
    /// Accepts `s` exactly when the validator does; a refused string is
    /// answered with [`invalid_email_message`]. The empty string and a
    /// string without an `@` are always refused.
    pub fn parse(s: String) -> (result: Result<SubscriberEmail, String>)
        ensures
            email_is_valid(s@) ==> result is Ok && result->Ok_0@ == s@,
            !email_is_valid(s@) ==> result is Err && result->Err_0@ == invalid_email_message(s@),
            result is Ok ==> s@.len() > 0 && s@.contains('@'),
    {
        let valid = validate_email(&s);
        Self::from_validation(s, valid)
    }

    /// Turns the validator's verdict on `s` into an address or a refusal.
    pub fn from_validation(s: String, valid: bool) -> (result: Result<SubscriberEmail, String>)
        ensures
            valid ==> result is Ok && result->Ok_0@ == s@,
            !valid ==> result is Err && result->Err_0@ == invalid_email_message(s@),
    {
        if valid {
            Ok(SubscriberEmail(s))
        } else {
            let mut message = String::from_str("Invalid email: ");
            message.append(s.as_str());
            Err(message)
        }
    }

    /// The address as a string slice.
    pub fn as_ref(&self) -> (s: &str)
        ensures
            s@ == self@,
    {
        self.0.as_str()
    }

    /// The address as an owned string.
    pub fn to_string(&self) -> (s: String)
        ensures
            s@ == self@,
    {
        self.0.clone()
    }
}

} // verus!
