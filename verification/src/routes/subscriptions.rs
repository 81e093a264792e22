//! Subscribing: what is decided about a subscription form before anything
//! is stored or sent.

use crate::domain::subscriber_email::email_is_valid;
use crate::domain::subscriber_email::invalid_email_message;
use crate::domain::subscriber_email::SubscriberEmail;
use crate::domain::subscriber_name::invalid_name_message;
use crate::domain::subscriber_name::name_is_valid;
use crate::domain::subscriber_name::SubscriberName;
use crate::domain::subscriber_status::SubscriberStatus;
use crate::issue_delivery_worker::OutgoingEmail;
use crate::issue_delivery_worker::OutgoingEmailView;
use rand::distributions::Alphanumeric;
use rand::thread_rng;
use rand::Rng;
use vstd::prelude::*;
use vstd::string::*;

verus! {

/// The number of characters of a subscription token.
pub const TOKEN_LENGTH: usize = 25;

/// Appending a character to a string, as the documentation of
/// `String::push` has it.
pub assume_specification[ String::push ](s: &mut String, ch: char)
    ensures
        final(s)@ == old(s)@.push(ch),
;

/// Whether `byte` is an ASCII letter or digit.
pub open spec fn is_alphanumeric(byte: u8) -> bool {
    ||| 0x30 <= byte <= 0x39
    ||| 0x41 <= byte <= 0x5a
    ||| 0x61 <= byte <= 0x7a
}

/// Samples `rand::distributions::Alphanumeric` from the generator of the
/// thread. Which byte comes is left to chance; it is always an ASCII
/// letter or digit.
#[verifier::external_body]
fn sample_alphanumeric() -> (byte: u8)
    ensures
        is_alphanumeric(byte),
{
    thread_rng().sample(Alphanumeric)
}

/// Whether `token` has the form of a subscription token:
/// [`TOKEN_LENGTH`] ASCII letters and digits.
pub open spec fn is_token(token: Seq<char>) -> bool {
    &&& token.len() == TOKEN_LENGTH
    &&& forall|i: int|
        0 <= i < token.len() ==> (#[trigger] token[i]) as u32 <= 0x7f && is_alphanumeric(
            token[i] as u8,
        )
}

/// A new subscription token, made of random letters and digits.
pub fn generate_subscription_token() -> (token: String)
    ensures
        is_token(token@),
{
    let mut token = String::new();
    let mut i: usize = 0;
    while i < TOKEN_LENGTH
        invariant
            i <= TOKEN_LENGTH,
            token@.len() == i,
            forall|k: int|
                0 <= k < i ==> (#[trigger] token@[k]) as u32 <= 0x7f && is_alphanumeric(
                    token@[k] as u8,
                ),
        decreases TOKEN_LENGTH - i,
    {
        let byte = sample_alphanumeric();
        token.push(byte as char);
        i += 1;
    }
    token
}

/// The subscription form.
#[derive(Debug)]
pub struct SubscribeFormData {
    pub email: String,
    pub name: String,
}

/// A subscriber whose name and address went through validation.
#[derive(Debug)]
pub struct NewSubscriber {
    pub email: SubscriberEmail,
    pub name: SubscriberName,
}

impl NewSubscriber {
    /// Validates the form, the name first. The first field that is
    /// refused decides the answer.
    pub fn try_from(value: SubscribeFormData) -> (result: Result<NewSubscriber, String>)
        ensures
            !name_is_valid(value.name@) ==> result is Err && result->Err_0@
                == invalid_name_message(value.name@),
            name_is_valid(value.name@) && !email_is_valid(value.email@) ==> result is Err
                && result->Err_0@ == invalid_email_message(value.email@),
            name_is_valid(value.name@) && email_is_valid(value.email@) ==> result is Ok
                && result->Ok_0.name@ == value.name@ && result->Ok_0.email@ == value.email@,
    {
        let name = match SubscriberName::parse(value.name) {
            Ok(name) => name,
            Err(message) => {
                return Err(message);
            },
        };
        let email = match SubscriberEmail::parse(value.email) {
            Ok(email) => email,
            Err(message) => {
                return Err(message);
            },
        };
        Ok(NewSubscriber { email, name })
    }
}

/// Why a subscription failed.
#[derive(Debug, PartialEq, Eq)]
pub enum SubscribeError {
    /// The form was refused: the client's fault.
    ValidationError(String),
    /// Something else went wrong.
    UnexpectedError(String),
}

impl SubscribeError {
    /// The status that this error is answered with: 400 for a refused
    /// form, 500 for everything else.
    pub fn status_code(&self) -> (code: u16)
        ensures
            code == (if *self is ValidationError {
                400u16
            } else {
                500u16
            }),
    {
        match self {
            SubscribeError::ValidationError(_) => 400,
            SubscribeError::UnexpectedError(_) => 500,
        }
    }
}

/// The status of a subscription as its record tells it: unsubscribed
/// without a record, and also with a record whose status cannot be read.
pub fn subscription_status(record: Option<&str>) -> (status: SubscriberStatus)
    ensures
        status == match record {
            None => SubscriberStatus::Unsubscribed,
            Some(text) => if text@ == "pending_confirmation"@ {
                SubscriberStatus::PendingConfirmation
            } else if text@ == "confirmed"@ {
                SubscriberStatus::Confirmed
            } else {
                SubscriberStatus::Unsubscribed
            },
        },
{
    match record {
        None => SubscriberStatus::Unsubscribed,
        Some(text) => match SubscriberStatus::parse(text) {
            Ok(status) => status,
            Err(_) => SubscriberStatus::Unsubscribed,
        },
    }
}

/// What a subscription does, given the status of the address.
#[derive(Debug, Clone, Copy, PartialEq, Eq, Structural)]
pub enum SubscriptionPlan {
    /// The address is new: store the subscriber and send the confirmation.
    InsertSubscriber,
    /// The address waits for confirmation: send the confirmation again.
    ResendConfirmation,
    /// The address is confirmed: answer with status 500, send nothing.
    Reject,
}

/// Decides what a subscription does, given the status of the address.
pub fn plan_subscription(status: SubscriberStatus) -> (plan: SubscriptionPlan)
    ensures
        plan == match status {
            SubscriberStatus::Unsubscribed => SubscriptionPlan::InsertSubscriber,
            SubscriberStatus::PendingConfirmation => SubscriptionPlan::ResendConfirmation,
            SubscriberStatus::Confirmed => SubscriptionPlan::Reject,
        },
{
    match status {
        SubscriberStatus::Unsubscribed => SubscriptionPlan::InsertSubscriber,
        SubscriberStatus::PendingConfirmation => SubscriptionPlan::ResendConfirmation,
        SubscriberStatus::Confirmed => SubscriptionPlan::Reject,
    }
}

/// The link that confirms the subscription with `token`.
pub open spec fn confirmation_link(base_url: Seq<char>, token: Seq<char>) -> Seq<char> {
    base_url + "/subscriptions/confirm?subscription_token="@ + token
}

/// The email that asks `recipient` to confirm.
pub open spec fn confirmation_email_view(recipient: Seq<char>, base_url: Seq<char>, token: Seq<char>) -> OutgoingEmailView {
    OutgoingEmailView {
        recipient,
        subject: "Welcome"@,
        html_content: "Welcome to our newsletter! <br/> Click <a href=\""@ + confirmation_link(
            base_url,
            token,
        ) + "\">here</a> to confirm your subscription."@,
        text_content: "Welcome to our newsletter! Visit "@ + confirmation_link(base_url, token)
            + " to confirm your subscription."@,
    }
}

/// Makes the email that asks a new subscriber to confirm, with the link
/// for `subscription_token` under `base_url`.
pub fn confirmation_email(new_subscriber: NewSubscriber, base_url: &str, subscription_token: &str) -> (email:
    OutgoingEmail)
    ensures
        email@ == confirmation_email_view(
            new_subscriber.email@,
            base_url@,
            subscription_token@,
        ),
{
    let mut link = String::from_str(base_url);
    link.append("/subscriptions/confirm?subscription_token=");
    link.append(subscription_token);
    let mut html_content = String::from_str("Welcome to our newsletter! <br/> Click <a href=\"");
    html_content.append(link.as_str());
    html_content.append("\">here</a> to confirm your subscription.");
    let mut text_content = String::from_str("Welcome to our newsletter! Visit ");
    text_content.append(link.as_str());
    text_content.append(" to confirm your subscription.");
    OutgoingEmail {
        recipient: new_subscriber.email,
        subject: String::from_str("Welcome"),
        html_content,
        text_content,
    }
}

} // verus!
