//! Where a subscriber stands: not on the list, waiting for confirmation,
//! or confirmed.

use vstd::prelude::*;
use vstd::string::*;

verus! {

/// The status of a subscription.
#[derive(Debug, Clone, Copy, PartialEq, Eq, Structural)]
pub enum SubscriberStatus {
    Unsubscribed,
    PendingConfirmation,
    Confirmed,
}

/// What an unknown status text is answered with.
pub open spec fn invalid_status_message(s: Seq<char>) -> Seq<char> {
    "Invalid status representation: "@ + s
}

impl SubscriberStatus {
    /// Reads a status as it is stored: `pending_confirmation` or
    /// `confirmed`. Every other text is answered with
    /// [`invalid_status_message`].
    pub fn parse(s: &str) -> (result: Result<SubscriberStatus, String>)
        ensures
            s@ == "pending_confirmation"@ ==> result == Ok::<_, String>(
                SubscriberStatus::PendingConfirmation,
            ),
            s@ == "confirmed"@ ==> result == Ok::<_, String>(SubscriberStatus::Confirmed),
            s@ != "pending_confirmation"@ && s@ != "confirmed"@ ==> result is Err && result->Err_0@
                == invalid_status_message(s@),
    {
        proof {
            reveal_strlit("pending_confirmation");
            reveal_strlit("confirmed");
            assert("pending_confirmation"@.len() == 20);
            assert("confirmed"@.len() == 9);
        }
        let text = String::from_str(s);
        if text == String::from_str("pending_confirmation") {
            Ok(SubscriberStatus::PendingConfirmation)
        } else if text == String::from_str("confirmed") {
            Ok(SubscriberStatus::Confirmed)
        } else {
            let mut message = String::from_str("Invalid status representation: ");
            message.append(s);
            Err(message)
        }
    }

    /// The text under which this status is stored, if it is stored at all.
    pub fn as_str(&self) -> (text: Option<&'static str>)
        ensures
            *self == SubscriberStatus::Unsubscribed ==> text is None,
            *self == SubscriberStatus::PendingConfirmation ==> text is Some && text->0@
                == "pending_confirmation"@,
            *self == SubscriberStatus::Confirmed ==> text is Some && text->0@ == "confirmed"@,
    {
        match self {
            SubscriberStatus::Unsubscribed => None,
            SubscriberStatus::PendingConfirmation => Some("pending_confirmation"),
            SubscriberStatus::Confirmed => Some("confirmed"),
        }
    }
}

} // verus!
