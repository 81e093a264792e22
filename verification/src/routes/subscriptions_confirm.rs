//! Confirming a subscription: what is decided about a confirmation
//! before anything is stored.

use crate::domain::subscriber_status::SubscriberStatus;
use vstd::prelude::*;
use vstd::string::*;

verus! {

/// What a confirmation link brings.
#[derive(Debug)]
pub struct ConfirmationParameters {
    pub subscription_token: String,
}

/// Why a confirmation failed.
#[derive(Debug, PartialEq, Eq)]
pub enum ConfirmationError {
    /// The token belongs to no subscription.
    ValidationError(String),
    /// The subscription is confirmed already.
    AlreadySubscribed(String),
    /// Something else went wrong.
    UnexpectedError(String),
}

impl ConfirmationError {
    /// The status that this error is answered with: 401 for an unknown
    /// token, 410 for a subscription that is confirmed already, 500 for
    /// everything else.
    pub fn status_code(&self) -> (code: u16)
        ensures
            code == match *self {
                ConfirmationError::ValidationError(_) => 401u16,
                ConfirmationError::UnexpectedError(_) => 500u16,
                ConfirmationError::AlreadySubscribed(_) => 410u16,
            },
    {
        match self {
            ConfirmationError::ValidationError(_) => 401,
            ConfirmationError::UnexpectedError(_) => 500,
            ConfirmationError::AlreadySubscribed(_) => 410,
        }
    }
}

/// The subscriber that a token belongs to, given what the lookup of the
/// token found. A token that belongs to nobody is refused.
pub fn subscriber_id_from_token(found: Option<u128>) -> (result: Result<u128, ConfirmationError>)
    ensures
        match found {
            Some(id) => result is Ok && result->Ok_0 == id,
            None => result is Err && result->Err_0 is ValidationError
                && result->Err_0->ValidationError_0@ == "No subscription found!"@,
        },
{
    match found {
        Some(id) => Ok(id),
        None => Err(ConfirmationError::ValidationError(String::from_str("No subscription found!"))),
    }
}

/// Whether a subscription with this status can be confirmed: one that is
/// confirmed already cannot.
pub fn check_not_confirmed(status: SubscriberStatus) -> (result: Result<(), ConfirmationError>)
    ensures
        status == SubscriberStatus::Confirmed ==> result is Err && result->Err_0
            is AlreadySubscribed && result->Err_0->AlreadySubscribed_0@
            == "Subscription already confirmed"@,
        status != SubscriberStatus::Confirmed ==> result is Ok,
{
    match status {
        SubscriberStatus::Confirmed => Err(
            ConfirmationError::AlreadySubscribed(
                String::from_str("Subscription already confirmed"),
            ),
        ),
        _ => Ok(()),
    }
}

/// The status of an existing subscription as its record tells it. A
/// status that cannot be read is an error.
pub fn subscriber_status_from_record(text: &str) -> (result: Result<
    SubscriberStatus,
    ConfirmationError,
>)
    ensures
        text@ == "pending_confirmation"@ ==> result is Ok && result->Ok_0
            == SubscriberStatus::PendingConfirmation,
        text@ == "confirmed"@ ==> result is Ok && result->Ok_0 == SubscriberStatus::Confirmed,
        text@ != "pending_confirmation"@ && text@ != "confirmed"@ ==> result is Err
            && result->Err_0 is UnexpectedError && result->Err_0->UnexpectedError_0@
            == crate::domain::subscriber_status::invalid_status_message(text@),
{
    match SubscriberStatus::parse(text) {
        Ok(status) => Ok(status),
        Err(message) => Err(ConfirmationError::UnexpectedError(message)),
    }
}

} // verus!
