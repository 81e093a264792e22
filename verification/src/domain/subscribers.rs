//! The list of subscribers as far as publishing needs it: an address and a
//! status for each.

use super::subscriber_email::SubscriberEmail;
use super::subscriber_status::SubscriberStatus;
use crate::delivery_queue::strings_view;
use crate::rows::has_key;
use crate::rows::keys_distinct;
use crate::rows::lemma_absent;
use crate::rows::lemma_absent_from_map;
use crate::rows::lemma_found;
use crate::rows::lemma_push;
use crate::rows::lemma_update;
use crate::rows::Keyed;
use vstd::prelude::*;

verus! {

/// A subscriber.
#[derive(Debug)]
pub struct Subscriber {
    pub email: String,
    pub status: SubscriberStatus,
}

/// What a [`Subscriber`] holds.
pub struct SubscriberView {
    pub email: Seq<char>,
    pub status: SubscriberStatus,
}

impl View for Subscriber {
    type V = SubscriberView;

    open spec fn view(&self) -> SubscriberView {
        SubscriberView { email: self.email@, status: self.status }
    }
}

impl Keyed for SubscriberView {
    type Key = Seq<char>;

    open spec fn key(self) -> Seq<char> {
        self.email
    }
}

impl SubscriberView {
    /// This subscriber after confirmation.
    pub open spec fn confirmed(self) -> SubscriberView {
        SubscriberView { status: SubscriberStatus::Confirmed, ..self }
    }
}

/// The addresses of the confirmed among `subscribers`, in their order.
pub open spec fn confirmed_emails(subscribers: Seq<SubscriberView>) -> Seq<Seq<char>>
    decreases subscribers.len(),
{
    if subscribers.len() == 0 {
        Seq::empty()
    } else if subscribers.last().status == SubscriberStatus::Confirmed {
        confirmed_emails(subscribers.drop_last()).push(subscribers.last().email)
    } else {
        confirmed_emails(subscribers.drop_last())
    }
}

/// Every address among the confirmed is the address of a confirmed
/// subscriber, and every confirmed subscriber's address is among them.
pub proof fn lemma_confirmed_emails_are_confirmed(subscribers: Seq<SubscriberView>)
    ensures
        forall|email: Seq<char>|
            confirmed_emails(subscribers).contains(email) <==> exists|i: int|
                0 <= i < subscribers.len() && (#[trigger] subscribers[i]).email == email
                    && subscribers[i].status == SubscriberStatus::Confirmed,
    decreases subscribers.len(),
{
    let listed = confirmed_emails(subscribers);
    if subscribers.len() > 0 {
        let rest = subscribers.drop_last();
        let last = subscribers.last();
        lemma_confirmed_emails_are_confirmed(rest);
        assert forall|email: Seq<char>| listed.contains(email) <==> exists|i: int|
            0 <= i < subscribers.len() && (#[trigger] subscribers[i]).email == email
                && subscribers[i].status == SubscriberStatus::Confirmed by {
            if listed.contains(email) {
                let k = choose|k: int| 0 <= k < listed.len() && listed[k] == email;
                if last.status == SubscriberStatus::Confirmed && k == listed.len() - 1 {
                    assert(subscribers[subscribers.len() - 1].email == email);
                } else {
                    assert(confirmed_emails(rest)[k] == email);
                    assert(confirmed_emails(rest).contains(email));
                    let i = choose|i: int|
                        0 <= i < rest.len() && (#[trigger] rest[i]).email == email
                            && rest[i].status == SubscriberStatus::Confirmed;
                    assert(subscribers[i].email == email);
                }
            }
            if exists|i: int|
                0 <= i < subscribers.len() && (#[trigger] subscribers[i]).email == email
                    && subscribers[i].status == SubscriberStatus::Confirmed {
                let i = choose|i: int|
                    0 <= i < subscribers.len() && (#[trigger] subscribers[i]).email == email
                        && subscribers[i].status == SubscriberStatus::Confirmed;
                if i == subscribers.len() - 1 {
                    assert(listed[listed.len() - 1] == email);
                } else {
                    assert(rest[i].email == email);
                    assert(confirmed_emails(rest).contains(email));
                    let k = choose|k: int|
                        0 <= k < confirmed_emails(rest).len() && confirmed_emails(rest)[k]
                            == email;
                    assert(listed[k] == email);
                }
            }
        }
    }
}

/// Among subscribers with distinct addresses no address is listed twice
/// as confirmed.
pub proof fn lemma_confirmed_emails_distinct(subscribers: Seq<SubscriberView>)
    requires
        keys_distinct(subscribers),
    ensures
        confirmed_emails(subscribers).no_duplicates(),
    decreases subscribers.len(),
{
    if subscribers.len() > 0 {
        let rest = subscribers.drop_last();
        let last = subscribers.last();
        assert forall|i: int, j: int| 0 <= i < j < rest.len() implies (#[trigger] rest[i]).key() != (
        #[trigger] rest[j]).key() by {
            assert(subscribers[i].key() != subscribers[j].key());
        }
        lemma_confirmed_emails_distinct(rest);
        lemma_confirmed_emails_are_confirmed(rest);
        if confirmed_emails(rest).contains(last.email) {
            let i = choose|i: int|
                0 <= i < rest.len() && (#[trigger] rest[i]).email == last.email && rest[i].status
                    == SubscriberStatus::Confirmed;
            assert(subscribers[i].key() != subscribers[subscribers.len() - 1].key());
        }
    }
}

/// The list of subscribers.
#[derive(Debug)]
pub struct SubscriberDirectory {
    subscribers: Vec<Subscriber>,
}

impl View for SubscriberDirectory {
    type V = Seq<SubscriberView>;

    closed spec fn view(&self) -> Seq<SubscriberView> {
        rows_view(self.subscribers@)
    }
}

spec fn rows_view(rows: Seq<Subscriber>) -> Seq<SubscriberView> {
    rows.map_values(|row: Subscriber| row@)
}

impl SubscriberDirectory {
    #[verifier::type_invariant]
    spec fn well_formed(&self) -> bool {
        keys_distinct(self@)
    }

    /// A list without subscribers.
    pub fn new() -> (directory: SubscriberDirectory)
        ensures
            directory@ == Seq::<SubscriberView>::empty(),
    {
        let directory = SubscriberDirectory { subscribers: Vec::new() };
        assert(directory@ =~= Seq::<SubscriberView>::empty());
        directory
    }

    /// The number of subscribers. No two of them have the same address.
    pub fn len(&self) -> (n: usize)
        ensures
            n == self@.len(),
            keys_distinct(self@),
    {
        proof {
            use_type_invariant(self);
        }
        self.subscribers.len()
    }

    fn position(&self, email: &String) -> (found: Option<usize>)
        ensures
            keys_distinct(self@),
            found is Some ==> found->0 < self@.len() && self@[found->0 as int].email == email@,
            found is Some ==> forall|i: int|
                0 <= i < self@.len() && (#[trigger] self@[i]).email == email@ ==> i == found->0,
            found is None ==> !has_key(self@, email@),
            found is None ==> forall|i: int|
                0 <= i < self@.len() ==> (#[trigger] self@[i]).email != email@,
    {
        proof {
            use_type_invariant(self);
        }
        let mut i: usize = 0;
        while i < self.subscribers.len()
            invariant
                i <= self.subscribers.len(),
                keys_distinct(self@),
                forall|k: int| 0 <= k < i ==> (#[trigger] self@[k]).key() != email@,
            decreases self.subscribers.len() - i,
        {
            if self.subscribers[i].email == *email {
                proof {
                    assert forall|k: int|
                        0 <= k < self@.len() && (#[trigger] self@[k]).email == email@ implies k
                        == i by {
                        lemma_found(self@, k);
                        lemma_found(self@, i as int);
                    }
                }
                return Some(i);
            }
            i += 1;
        }
        proof {
            lemma_absent(self@, email@);
        }
        None
    }

    /// The status of the subscriber with this address; unsubscribed where
    /// there is none.
    pub fn status(&self, email: &String) -> (status: SubscriberStatus)
        ensures
            forall|i: int|
                0 <= i < self@.len() && (#[trigger] self@[i]).email == email@ ==> status
                    == self@[i].status,
            !has_key(self@, email@) ==> status == SubscriberStatus::Unsubscribed,
    {
        match self.position(email) {
            Some(i) => {
                assert(crate::rows::is_at(self@, email@, i as int));
                self.subscribers[i].status
            },
            None => SubscriberStatus::Unsubscribed,
        }
    }

    /// Adds a subscriber who waits for confirmation. Says whether it did:
    /// an address that is on the list changes nothing.
    pub fn insert(&mut self, email: &SubscriberEmail) -> (inserted: bool)
        ensures
            keys_distinct(final(self)@),
            inserted == !has_key(old(self)@, email@),
            inserted ==> final(self)@ == old(self)@.push(
                SubscriberView { email: email@, status: SubscriberStatus::PendingConfirmation },
            ),
            !inserted ==> final(self)@ == old(self)@,
    {
        let address = email.to_string();
        match self.position(&address) {
            Some(i) => {
                assert(crate::rows::is_at(self@, email@, i as int));
                false
            },
            None => {
                let row = Subscriber {
                    email: address,
                    status: SubscriberStatus::PendingConfirmation,
                };
                proof {
                    lemma_absent_from_map(self@, email@);
                    lemma_push(self@, row@);
                }
                let mut subscribers: Vec<Subscriber> = Vec::new();
                core::mem::swap(&mut self.subscribers, &mut subscribers);
                subscribers.push(row);
                assert(rows_view(subscribers@) =~= old(self)@.push(row@));
                core::mem::swap(&mut self.subscribers, &mut subscribers);
                true
            },
        }
    }

    /// Confirms the subscriber with this address. Says whether there is
    /// one; an address that is not on the list changes nothing.
    pub fn confirm(&mut self, email: &String) -> (found: bool)
        ensures
            keys_distinct(final(self)@),
            found == has_key(old(self)@, email@),
            forall|i: int|
                0 <= i < old(self)@.len() && (#[trigger] old(self)@[i]).email == email@ ==> final(self)@ == old(self)@.update(i, old(self)@[i].confirmed()),
            !found ==> final(self)@ == old(self)@,
    {
        match self.position(email) {
            Some(k) => {
                proof {
                    assert(crate::rows::is_at(self@, email@, k as int));
                    lemma_update(self@, k as int, self@[k as int].confirmed());
                }
                let mut subscribers: Vec<Subscriber> = Vec::new();
                core::mem::swap(&mut self.subscribers, &mut subscribers);
                subscribers[k].status = SubscriberStatus::Confirmed;
                assert(rows_view(subscribers@) =~= old(self)@.update(
                    k as int,
                    old(self)@[k as int].confirmed(),
                ));
                core::mem::swap(&mut self.subscribers, &mut subscribers);
                true
            },
            None => false,
        }
    }

    /// The addresses of the confirmed subscribers as they stand now, in the
    /// order of the list and none of them twice.
    pub fn confirmed_emails(&self) -> (emails: Vec<String>)
        ensures
            strings_view(emails@) == confirmed_emails(self@),
            confirmed_emails(self@).no_duplicates(),
    {
        proof {
            use_type_invariant(self);
            lemma_confirmed_emails_distinct(self@);
        }
        let mut emails: Vec<String> = Vec::new();
        let mut i: usize = 0;
        while i < self.subscribers.len()
            invariant
                i <= self.subscribers.len(),
                strings_view(emails@) == confirmed_emails(self@.subrange(0, i as int)),
            decreases self.subscribers.len() - i,
        {
            proof {
                assert(self@.subrange(0, i + 1).drop_last() =~= self@.subrange(0, i as int));
                assert(self@.subrange(0, i + 1).last() == self@[i as int]);
            }
            if self.subscribers[i].status == SubscriberStatus::Confirmed {
                let email = self.subscribers[i].email.clone();
                proof {
                    assert(strings_view(emails@.push(email)) =~= strings_view(emails@).push(
                        email@,
                    ));
                }
                emails.push(email);
            }
            i += 1;
        }
        proof {
            assert(self@.subrange(0, i as int) =~= self@);
        }
        emails
    }
}

} // verus!
