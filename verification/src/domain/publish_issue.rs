//! Publishing an issue directly: every subscriber who is confirmed at the
//! moment of the call gets the issue sent at once, one after the other.
//!
//! Nothing is stored: a stored address that is no email address is passed
//! over, and the first sending that fails ends the batch.

use super::subscriber_email::email_is_valid;
use super::subscriber_email::SubscriberEmail;
use crate::delivery_queue::strings_view;
use crate::domain::subscribers::confirmed_emails;
use crate::issue_delivery_worker::OutgoingEmail;
use crate::issue_delivery_worker::OutgoingEmailView;
use crate::issue_delivery_worker::SendOutcome;
use crate::store::Store;
use vstd::prelude::*;
use vstd::string::*;

verus! {

/// An issue to publish.
#[derive(Debug)]
pub struct IssueContent {
    pub title: String,
    pub content: Content,
}

/// The two forms of an issue's body.
#[derive(Debug)]
pub struct Content {
    pub html: String,
    pub text: String,
}

/// What an [`IssueContent`] holds.
pub struct IssueContentView {
    pub title: Seq<char>,
    pub html: Seq<char>,
    pub text: Seq<char>,
}

impl View for IssueContent {
    type V = IssueContentView;

    open spec fn view(&self) -> IssueContentView {
        IssueContentView { title: self.title@, html: self.content.html@, text: self.content.text@ }
    }
}

impl Clone for IssueContent {
    fn clone(&self) -> (copy: Self)
        ensures
            copy@ == self@,
    {
        IssueContent {
            title: self.title.clone(),
            content: Content { html: self.content.html.clone(), text: self.content.text.clone() },
        }
    }
}

impl IssueContentView {
    /// The email that brings this issue to `recipient`.
    pub open spec fn email_to(self, recipient: Seq<char>) -> OutgoingEmailView {
        OutgoingEmailView {
            recipient,
            subject: self.title,
            html_content: self.html,
            text_content: self.text,
        }
    }
}

/// The first place from `from` on where `recipients` holds an email
/// address; the length of `recipients` if there is none.
pub open spec fn next_valid(recipients: Seq<Seq<char>>, from: int) -> int
    decreases recipients.len() - from,
{
    if from < 0 || from >= recipients.len() {
        recipients.len() as int
    } else if email_is_valid(recipients[from]) {
        from
    } else {
        next_valid(recipients, from + 1)
    }
}

/// Where a direct publication stands.
pub struct PublicationView {
    pub issue: IssueContentView,
    /// The addresses that were confirmed when the publication began.
    pub recipients: Seq<Seq<char>>,
    /// How many of them were dealt with.
    pub cursor: int,
    /// Whether a sending failed.
    pub aborted: bool,
}

/// What a direct publication asks for next.
#[derive(Debug)]
pub enum PublishStep {
    /// Send this email and come back with the outcome.
    Send(OutgoingEmail),
    /// Every recipient was dealt with.
    Finished,
    /// A sending failed: the batch has ended.
    Aborted,
}

/// A direct publication under way.
#[derive(Debug)]
pub struct Publication {
    issue: IssueContent,
    recipients: Vec<String>,
    cursor: usize,
    aborted: bool,
}

impl View for Publication {
    type V = PublicationView;

    closed spec fn view(&self) -> PublicationView {
        PublicationView {
            issue: self.issue@,
            recipients: strings_view(self.recipients@),
            cursor: self.cursor as int,
            aborted: self.aborted,
        }
    }
}

/// What a failed sending to `recipient` is reported with.
pub open spec fn send_failure_message(recipient: Seq<char>) -> Seq<char> {
    "Failed to send newsletter to "@ + recipient
}

impl Publication {
    #[verifier::type_invariant]
    spec fn well_formed(&self) -> bool {
        self.cursor <= self.recipients@.len()
    }

    /// Begins the publication of `issue` to `recipients`, the addresses
    /// that are confirmed at this moment.
    pub fn begin(issue: IssueContent, recipients: Vec<String>) -> (publication: Publication)
        ensures
            publication@ == (PublicationView {
                issue: issue@,
                recipients: strings_view(recipients@),
                cursor: 0,
                aborted: false,
            }),
    {
        Publication { issue, recipients, cursor: 0, aborted: false }
    }

    /// Takes the publication one step on, given how the sending of the
    /// email that the step before handed out ended; nothing for the first
    /// step.
    ///
    /// After a failed sending the batch has ended and stays so. Otherwise
    /// the recipients that hold no email address are passed over, and the
    /// first that holds one gets the issue; where none is left, the
    /// publication is finished.
    pub fn next_step(&mut self, last: Option<SendOutcome>) -> (step: PublishStep)
        ensures
            final(self)@.issue == old(self)@.issue,
            final(self)@.recipients == old(self)@.recipients,
            0 <= old(self)@.cursor <= final(self)@.cursor <= old(self)@.recipients.len(),
            if old(self)@.aborted || last == Some(SendOutcome::TransportFailure) {
                &&& step is Aborted
                &&& final(self)@.aborted
                &&& final(self)@.cursor == old(self)@.cursor
            } else {
                let i = next_valid(old(self)@.recipients, old(self)@.cursor);
                &&& !final(self)@.aborted
                &&& if i < old(self)@.recipients.len() {
                    &&& step is Send
                    &&& step->Send_0@ == old(self)@.issue.email_to(old(self)@.recipients[i])
                    &&& final(self)@.cursor == i + 1
                } else {
                    &&& step is Finished
                    &&& final(self)@.cursor == old(self)@.recipients.len()
                }
            },
    {
        proof {
            use_type_invariant(&*self);
        }
        if self.aborted {
            return PublishStep::Aborted;
        }
        match last {
            Some(SendOutcome::TransportFailure) => {
                self.aborted = true;
                return PublishStep::Aborted;
            },
            _ => {},
        }
        let ghost recipients = strings_view(self.recipients@);
        let ghost start = self.cursor as int;
        let mut at: usize = self.cursor;
        while at < self.recipients.len()
            invariant
                *self == *old(self),
                !self.aborted,
                last != Some(SendOutcome::TransportFailure),
                start == self.cursor,
                start <= at <= self.recipients.len(),
                recipients == strings_view(self.recipients@),
                next_valid(recipients, start) == next_valid(recipients, at as int),
            decreases self.recipients.len() - at,
        {
            match SubscriberEmail::parse(self.recipients[at].clone()) {
                Ok(recipient) => {
                    let email = OutgoingEmail {
                        recipient,
                        subject: self.issue.title.clone(),
                        html_content: self.issue.content.html.clone(),
                        text_content: self.issue.content.text.clone(),
                    };
                    assert(recipients[at as int] == self.recipients@[at as int]@);
                    assert(next_valid(recipients, at as int) == at);
                    self.cursor = at + 1;
                    return PublishStep::Send(email);
                },
                Err(_) => {
                    assert(recipients[at as int] == self.recipients@[at as int]@);
                    at += 1;
                },
            }
        }
        assert(next_valid(recipients, at as int) == recipients.len());
        self.cursor = at;
        PublishStep::Finished
    }

    /// The report of a batch that has ended on a failed sending: it names
    /// the recipient of the email that was handed out last. Nothing for a
    /// batch that has not ended so.
    pub fn failure_message(&self) -> (message: Option<String>)
        ensures
            message is Some <==> self@.aborted && self@.cursor > 0,
            message is Some ==> message->0@ == send_failure_message(
                self@.recipients[self@.cursor - 1],
            ),
    {
        proof {
            use_type_invariant(self);
        }
        if self.aborted && self.cursor > 0 {
            let mut message = String::from_str("Failed to send newsletter to ");
            message.append(self.recipients[self.cursor - 1].as_str());
            Some(message)
        } else {
            None
        }
    }
}

/// Begins the direct publication of `issue` to the subscribers who are
/// confirmed in `store` at this moment.
pub fn publish_issue(issue: &IssueContent, store: &Store) -> (publication: Publication)
    ensures
        publication@ == (PublicationView {
            issue: issue@,
            recipients: confirmed_emails(store@.subscribers),
            cursor: 0,
            aborted: false,
        }),
{
    Publication::begin(issue.clone(), store.get_confirmed_subscribers())
}

} // verus!
