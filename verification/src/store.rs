//! The persisted state as one whole: idempotency records, issues, the
//! delivery queue and the subscribers, and the unit of work that writes an
//! issue, its tasks and the response to its request together or not at all.

use crate::delivery_queue::after_claim;
use crate::delivery_queue::after_release;
use crate::delivery_queue::after_retire;
use crate::delivery_queue::first_unlocked;
use crate::delivery_queue::is_claimed;
use crate::delivery_queue::next_task;
use crate::delivery_queue::strings_view;
use crate::delivery_queue::tasks_for;
use crate::delivery_queue::ClaimedTask;
use crate::delivery_queue::DeliveryQueue;
use crate::delivery_queue::TaskView;
use crate::domain::subscriber_email::SubscriberEmail;
use crate::domain::subscriber_status::SubscriberStatus;
use crate::domain::subscribers::confirmed_emails;
use crate::domain::subscribers::SubscriberDirectory;
use crate::domain::subscribers::SubscriberView;
use crate::idempotency::key::is_valid_key;
use crate::idempotency::key::IdempotencyKey;
use crate::idempotency::persistence::Claim;
use crate::idempotency::persistence::IdempotencyStore;
use crate::idempotency::persistence::RecordState;
use crate::idempotency::persistence::Records;
use crate::idempotency::response::ResponseView;
use crate::idempotency::response::SavedResponse;
use crate::issue_store::Issue;
use crate::issue_store::IssueRow;
use crate::issue_store::IssueStore;
use crate::issue_store::Issues;
use crate::issue_store::NewsletterIssueRecord;
use crate::rows::has_key;
use crate::rows::keys_distinct;
use crate::rows::lemma_concat_distinct;
use crate::rows::position_of;
use crate::rows::Keyed;
use vstd::prelude::*;

verus! {

/// Why the store refused a write.
#[derive(Debug, Clone, Copy, PartialEq, Eq, Structural)]
pub enum StoreError {
    /// The key of the unit of work is not claimed, or answered already.
    NotClaimed,
    /// The key has a response already.
    AlreadyRecorded,
    /// The id of the issue is taken.
    DuplicateIssue(u128),
    /// The unit of work holds no issue with this id to deliver.
    UnknownIssue(u128),
    /// A task of this issue for one of the addresses is there already.
    DuplicateTask(u128),
}

/// What the store holds.
pub struct StoreView {
    pub idempotency: Records,
    pub issues: Issues,
    pub queue: Seq<TaskView>,
    pub subscribers: Seq<SubscriberView>,
}

/// What a unit of work holds: the key it claimed and what it will write.
pub struct TransactionView {
    pub user_id: u128,
    pub key: Seq<char>,
    /// The issues that it will store, by their ids.
    pub issues: Issues,
    /// The tasks that it will enqueue, in their order.
    pub tasks: Seq<TaskView>,
}

impl TransactionView {
    /// The unit of work of a key that was just claimed.
    pub open spec fn begin(user_id: u128, key: Seq<char>) -> TransactionView {
        TransactionView { user_id, key, issues: Map::empty(), tasks: Seq::empty() }
    }

    /// The invariant of a unit of work: its key is valid, and its tasks
    /// wait, are for issues that it holds, and no two of them are for the
    /// same issue and address.
    pub open spec fn wf(self) -> bool {
        &&& is_valid_key(self.key)
        &&& keys_distinct(self.tasks)
        &&& forall|i: int|
            0 <= i < self.tasks.len() ==> !(#[trigger] self.tasks[i]).locked
                && self.issues.contains_key(self.tasks[i].issue_id)
    }

    /// This unit of work with one more issue.
    pub open spec fn with_issue(self, issue: IssueRow) -> TransactionView {
        TransactionView { issues: self.issues.insert(issue.issue_id, issue.content()), ..self }
    }

    /// This unit of work with one more task of `issue_id` for each of
    /// `emails`, behind those it holds.
    pub open spec fn with_tasks(self, issue_id: u128, emails: Seq<Seq<char>>) -> TransactionView {
        TransactionView { tasks: self.tasks + tasks_for(issue_id, emails), ..self }
    }
}

impl StoreView {
    /// The invariant of the store: every task of the queue is for an issue
    /// that is stored, no two tasks are for the same issue and address, and
    /// no two subscribers have the same address.
    pub open spec fn wf(self) -> bool {
        &&& keys_distinct(self.queue)
        &&& keys_distinct(self.subscribers)
        &&& forall|i: int|
            0 <= i < self.queue.len() ==> self.issues.contains_key(
                (#[trigger] self.queue[i]).issue_id,
            )
    }

    /// The store without anything in it.
    pub open spec fn empty() -> StoreView {
        StoreView {
            idempotency: Map::empty(),
            issues: Map::empty(),
            queue: Seq::empty(),
            subscribers: Seq::empty(),
        }
    }

    /// Whether `key` of `user_id` is claimed and not answered yet.
    pub open spec fn is_claimed(self, user_id: u128, key: Seq<char>) -> bool {
        self.idempotency.contains_key((user_id, key)) && self.idempotency[(
            user_id,
            key,
        )].response is None
    }

    /// The store after an attempt to claim `key` for `user_id`: a free key
    /// gets a placeholder, everything else stays.
    pub open spec fn claim(self, user_id: u128, key: Seq<char>, now: u64) -> StoreView {
        if self.idempotency.contains_key((user_id, key)) {
            self
        } else {
            StoreView {
                idempotency: self.idempotency.insert(
                    (user_id, key),
                    RecordState::placeholder(now),
                ),
                ..self
            }
        }
    }

    /// Whether an issue of `transaction` has an id that is taken in the
    /// store.
    pub open spec fn clashes(self, transaction: TransactionView) -> bool {
        !self.issues.dom().disjoint(transaction.issues.dom())
    }

    /// Whether an issue with this id is there for `transaction` to see:
    /// in the store or in the unit of work itself.
    pub open spec fn sees_issue(self, transaction: TransactionView, issue_id: u128) -> bool {
        self.issues.contains_key(issue_id) || transaction.issues.contains_key(issue_id)
    }

    /// Whether the unit of work `transaction` can be committed: its key is
    /// claimed and not answered, and the ids of its issues are free.
    pub open spec fn accepts(self, transaction: TransactionView) -> bool {
        self.is_claimed(transaction.user_id, transaction.key) && !self.clashes(transaction)
    }

    /// The store after `transaction` was committed with `response`.
    ///
    /// Where the store accepts it, all its issues, all its tasks and the
    /// response are written. Where its key is not claimed nothing changes,
    /// and where the id of one of its issues is taken the claim on its key
    /// is given up and nothing else changes.
    pub open spec fn commit(self, transaction: TransactionView, response: ResponseView) -> StoreView {
        let id = (transaction.user_id, transaction.key);
        if !self.is_claimed(transaction.user_id, transaction.key) {
            self
        } else if self.clashes(transaction) {
            StoreView { idempotency: self.idempotency.remove(id), ..self }
        } else {
            StoreView {
                idempotency: self.idempotency.insert(id, self.idempotency[id].completed(response)),
                issues: self.issues.union_prefer_right(transaction.issues),
                queue: self.queue + transaction.tasks,
                subscribers: self.subscribers,
            }
        }
    }

    /// The store after `response` was recorded for a key that had no
    /// record; a key that has one changes nothing.
    pub open spec fn record(self, user_id: u128, key: Seq<char>, response: ResponseView, now: u64) -> StoreView {
        if self.idempotency.contains_key((user_id, key)) {
            self
        } else {
            StoreView {
                idempotency: self.idempotency.insert(
                    (user_id, key),
                    RecordState::placeholder(now).completed(response),
                ),
                ..self
            }
        }
    }

    /// The store after a subscriber with this address was added, waiting
    /// for confirmation; an address that is on the list changes nothing.
    pub open spec fn insert_subscriber(self, email: Seq<char>) -> StoreView {
        if has_key(self.subscribers, email) {
            self
        } else {
            StoreView {
                subscribers: self.subscribers.push(
                    SubscriberView { email, status: SubscriberStatus::PendingConfirmation },
                ),
                ..self
            }
        }
    }

    /// The store after the subscriber with this address was confirmed; an
    /// address that is not on the list changes nothing.
    pub open spec fn confirm_subscriber(self, email: Seq<char>) -> StoreView {
        if has_key(self.subscribers, email) {
            let i = position_of(self.subscribers, email);
            StoreView { subscribers: self.subscribers.update(i, self.subscribers[i].confirmed()), ..self }
        } else {
            self
        }
    }

    /// The store after a worker claimed a task.
    pub open spec fn claim_task(self) -> StoreView {
        StoreView { queue: after_claim(self.queue), ..self }
    }

    /// The store after the claimed task `key` was retired.
    pub open spec fn retire_task(self, key: (u128, Seq<char>)) -> StoreView {
        StoreView { queue: after_retire(self.queue, key), ..self }
    }

    /// The store after the claimed task `key` was given back.
    pub open spec fn release_task(self, key: (u128, Seq<char>)) -> StoreView {
        StoreView { queue: after_release(self.queue, key), ..self }
    }

    /// The store after the unit of work of `key` was abandoned: the claim
    /// on the key is given up.
    pub open spec fn rollback(self, user_id: u128, key: Seq<char>) -> StoreView {
        if self.is_claimed(user_id, key) {
            StoreView { idempotency: self.idempotency.remove((user_id, key)), ..self }
        } else {
            self
        }
    }
}

/// Tasks for a new issue, one for each of a list of distinct addresses,
/// can join any queue that holds no task of that issue.
pub proof fn lemma_tasks_of_new_issue(queue: Seq<TaskView>, issue_id: u128, emails: Seq<Seq<char>>)
    requires
        keys_distinct(queue),
        emails.no_duplicates(),
        forall|i: int| 0 <= i < queue.len() ==> (#[trigger] queue[i]).issue_id != issue_id,
    ensures
        keys_distinct(queue + tasks_for(issue_id, emails)),
{
    let all = queue + tasks_for(issue_id, emails);
    assert forall|i: int, j: int| 0 <= i < j < all.len() implies (#[trigger] all[i]).key() != (
    #[trigger] all[j]).key() by {
        if j < queue.len() {
            assert(queue[i].key() != queue[j].key());
        } else if i < queue.len() {
            assert(queue[i].issue_id != issue_id);
            assert(all[j] == tasks_for(issue_id, emails)[j - queue.len()]);
        } else {
            assert(all[i] == tasks_for(issue_id, emails)[i - queue.len()]);
            assert(all[j] == tasks_for(issue_id, emails)[j - queue.len()]);
            assert(emails[i - queue.len()] != emails[j - queue.len()]);
        }
    }
}

/// A unit of work: the claim on one key together with the issues and the
/// tasks that will be written when it is committed.
#[derive(Debug)]
pub struct Transaction {
    user_id: u128,
    key: IdempotencyKey,
    issues: IssueStore,
    tasks: DeliveryQueue,
}

impl View for Transaction {
    type V = TransactionView;

    closed spec fn view(&self) -> TransactionView {
        TransactionView {
            user_id: self.user_id,
            key: self.key@,
            issues: self.issues@,
            tasks: self.tasks@,
        }
    }
}

impl Transaction {
    /// Every unit of work is as [`TransactionView::wf`] says.
    #[verifier::type_invariant]
    pub open spec fn well_formed(&self) -> bool {
        self@.wf()
    }

    /// The user whose key this unit of work holds.
    pub fn user_id(&self) -> (user_id: u128)
        ensures
            user_id == self@.user_id,
            self@.wf(),
    {
        proof {
            use_type_invariant(self);
        }
        self.user_id
    }

    /// The key that this unit of work holds.
    pub fn key(&self) -> (key: &IdempotencyKey)
        ensures
            key@ == self@.key,
    {
        &self.key
    }

    /// The number of issues and of tasks that this unit of work holds.
    pub fn counts(&self) -> (counts: (usize, usize))
        ensures
            self@.issues.dom().finite(),
            counts.0 == self@.issues.len(),
            counts.1 == self@.tasks.len(),
    {
        (self.issues.len(), self.tasks.len())
    }

    /// Puts one more issue into the unit of work and hands its id back.
    ///
    /// Nothing is deduplicated: every issue gets a row of its own. Only
    /// an id that is taken, in `store` or in the unit of work itself, is
    /// refused, and the unit of work then stays as it was. An id that is
    /// taken in the store after this call is refused at the commit.
    pub fn insert_issue(&mut self, store: &Store, issue: Issue) -> (result: Result<u128, StoreError>)
        ensures
            final(self)@.wf(),
            if store@.sees_issue(old(self)@, issue.issue_id) {
                &&& result == Err::<u128, _>(StoreError::DuplicateIssue(issue.issue_id))
                &&& final(self)@ == old(self)@
            } else {
                &&& result == Ok::<_, StoreError>(issue.issue_id)
                &&& final(self)@ == old(self)@.with_issue(issue@)
            },
    {
        proof {
            use_type_invariant(&*self);
        }
        let issue_id = issue.issue_id;
        if store.issues.contains(issue_id) || self.issues.contains(issue_id) {
            return Err(StoreError::DuplicateIssue(issue_id));
        }
        let ghost before = self@;
        let mut tasks = DeliveryQueue::new();
        core::mem::swap(&mut self.tasks, &mut tasks);
        let mut issues = IssueStore::new();
        core::mem::swap(&mut self.issues, &mut issues);
        let _ = issues.insert(issue);
        core::mem::swap(&mut self.issues, &mut issues);
        proof {
            assert forall|i: int| 0 <= i < before.tasks.len() implies !(
            #[trigger] before.tasks[i]).locked && before.with_issue(issue@).issues.contains_key(
                before.tasks[i].issue_id,
            ) by {}
        }
        core::mem::swap(&mut self.tasks, &mut tasks);
        Ok(issue_id)
    }

    /// Puts one task of issue `issue_id` for each of `emails` into the
    /// unit of work, behind those it holds, or none at all.
    ///
    /// The issue has to be one of the unit of work. Where two of its tasks
    /// would then be for the same issue and address, the list is refused.
    /// A refusal leaves the unit of work as it was.
    pub fn enqueue(&mut self, issue_id: u128, emails: &Vec<String>) -> (result: Result<
        (),
        StoreError,
    >)
        ensures
            final(self)@.wf(),
            if !old(self)@.issues.contains_key(issue_id) {
                &&& result == Err::<(), _>(StoreError::UnknownIssue(issue_id))
                &&& final(self)@ == old(self)@
            } else if keys_distinct(old(self)@.tasks + tasks_for(issue_id, strings_view(emails@))) {
                &&& result is Ok
                &&& final(self)@ == old(self)@.with_tasks(issue_id, strings_view(emails@))
            } else {
                &&& result == Err::<(), _>(StoreError::DuplicateTask(issue_id))
                &&& final(self)@ == old(self)@
            },
    {
        proof {
            use_type_invariant(&*self);
        }
        if !self.issues.contains(issue_id) {
            return Err(StoreError::UnknownIssue(issue_id));
        }
        let ghost before = self@;
        let ghost added = tasks_for(issue_id, strings_view(emails@));
        let mut tasks = DeliveryQueue::new();
        core::mem::swap(&mut self.tasks, &mut tasks);
        let enqueued = tasks.enqueue_all(issue_id, emails);
        proof {
            assert forall|i: int| 0 <= i < tasks@.len() implies !(#[trigger] tasks@[i]).locked
                && before.issues.contains_key(tasks@[i].issue_id) by {
                if i < before.tasks.len() {
                    assert(tasks@[i] == before.tasks[i]);
                } else {
                    assert(tasks@[i] == added[i - before.tasks.len()]);
                }
            }
        }
        core::mem::swap(&mut self.tasks, &mut tasks);
        match enqueued {
            Ok(()) => Ok(()),
            Err(_) => Err(StoreError::DuplicateTask(issue_id)),
        }
    }
}

/// What to do with a request after asking for its key.
#[derive(Debug)]
pub enum NextAction {
    /// The key was free and is now claimed by this unit of work: do the
    /// work and commit it with the response.
    StartProcessing(Transaction),
    /// The request was answered before: answer it the same way.
    ReturnSavedResponse(SavedResponse),
    /// Another request with this key is at work: ask again shortly.
    RetryLater,
}

/// The persisted state.
#[derive(Debug)]
pub struct Store {
    idempotency: IdempotencyStore,
    issues: IssueStore,
    queue: DeliveryQueue,
    subscribers: SubscriberDirectory,
}

impl View for Store {
    type V = StoreView;

    closed spec fn view(&self) -> StoreView {
        StoreView {
            idempotency: self.idempotency@,
            issues: self.issues@,
            queue: self.queue@,
            subscribers: self.subscribers@,
        }
    }
}

impl Store {
    /// Every store is as [`StoreView::wf`] says.
    #[verifier::type_invariant]
    pub open spec fn well_formed(&self) -> bool {
        self@.wf()
    }

    /// A store without anything in it.
    pub fn new() -> (store: Store)
        ensures
            store@ == StoreView::empty(),
            store@.wf(),
    {
        let queue = DeliveryQueue::new();
        let subscribers = SubscriberDirectory::new();
        Store { idempotency: IdempotencyStore::new(), issues: IssueStore::new(), queue, subscribers }
    }

    fn take(&mut self) -> (parts: (IdempotencyStore, IssueStore, DeliveryQueue, SubscriberDirectory))
        ensures
            old(self)@.wf(),
            final(self)@ == StoreView::empty(),
            parts.0@ == old(self)@.idempotency,
            parts.1@ == old(self)@.issues,
            parts.2@ == old(self)@.queue,
            parts.3@ == old(self)@.subscribers,
    {
        proof {
            use_type_invariant(&*self);
        }
        let mut taken = Store::new();
        core::mem::swap(self, &mut taken);
        let Store { idempotency, issues, queue, subscribers } = taken;
        (idempotency, issues, queue, subscribers)
    }

    fn put(
        &mut self,
        idempotency: IdempotencyStore,
        issues: IssueStore,
        queue: DeliveryQueue,
        subscribers: SubscriberDirectory,
    )
        requires
            (StoreView {
                idempotency: idempotency@,
                issues: issues@,
                queue: queue@,
                subscribers: subscribers@,
            }).wf(),
        ensures
            final(self)@ == (StoreView {
                idempotency: idempotency@,
                issues: issues@,
                queue: queue@,
                subscribers: subscribers@,
            }),
    {
        *self = Store { idempotency, issues, queue, subscribers };
    }

    /// The number of keys that have a record, of issues, and of tasks in
    /// the queue. The store is always as [`StoreView::wf`] says.
    pub fn counts(&self) -> (counts: (usize, usize, usize))
        ensures
            self@.wf(),
            self@.idempotency.dom().finite(),
            self@.issues.dom().finite(),
            counts.0 == self@.idempotency.len(),
            counts.1 == self@.issues.len(),
            counts.2 == self@.queue.len(),
    {
        proof {
            use_type_invariant(self);
        }
        (self.idempotency.len(), self.issues.len(), self.queue.len())
    }

    /// Adds a subscriber who waits for confirmation. Says whether it did:
    /// an address that is on the list changes nothing.
    pub fn insert_subscriber(&mut self, email: &SubscriberEmail) -> (inserted: bool)
        ensures
            final(self)@.wf(),
            inserted == !has_key(old(self)@.subscribers, email@),
            final(self)@ == old(self)@.insert_subscriber(email@),
    {
        let (idempotency, issues, queue, mut subscribers) = self.take();
        let inserted = subscribers.insert(email);
        self.put(idempotency, issues, queue, subscribers);
        inserted
    }

    /// Confirms the subscriber with this address. Says whether there is
    /// one. Nothing but the subscriber's status changes: the queue stays
    /// as it is.
    pub fn confirm_subscriber(&mut self, email: &String) -> (found: bool)
        ensures
            final(self)@.wf(),
            found == has_key(old(self)@.subscribers, email@),
            final(self)@ == old(self)@.confirm_subscriber(email@),
            final(self)@.queue == old(self)@.queue,
            forall|i: int|
                0 <= i < old(self)@.subscribers.len() && (#[trigger] old(self)@.subscribers[i]).email
                    == email@ ==> final(self)@.subscribers == old(self)@.subscribers.update(
                    i,
                    old(self)@.subscribers[i].confirmed(),
                ),
            !found ==> final(self)@ == old(self)@,
    {
        let (idempotency, issues, queue, mut subscribers) = self.take();
        let found = subscribers.confirm(email);
        proof {
            if found {
                let i = position_of(old(self)@.subscribers, email@);
                assert(crate::rows::is_at(old(self)@.subscribers, email@, i));
            }
        }
        self.put(idempotency, issues, queue, subscribers);
        found
    }

    /// The status of the subscriber with this address; unsubscribed where
    /// there is none.
    pub fn subscription_status(&self, email: &String) -> (status: SubscriberStatus)
        ensures
            forall|i: int|
                0 <= i < self@.subscribers.len() && (#[trigger] self@.subscribers[i]).email
                    == email@ ==> status == self@.subscribers[i].status,
            !has_key(self@.subscribers, email@) ==> status == SubscriberStatus::Unsubscribed,
    {
        self.subscribers.status(email)
    }

    /// The addresses of the confirmed subscribers as they stand now, none
    /// of them twice.
    pub fn get_confirmed_subscribers(&self) -> (emails: Vec<String>)
        ensures
            strings_view(emails@) == confirmed_emails(self@.subscribers),
            confirmed_emails(self@.subscribers).no_duplicates(),
    {
        self.subscribers.confirmed_emails()
    }

    /// Asks for `key` of `user_id`. A free key is claimed and a unit of
    /// work handed out; a key that is answered gives its response; a key
    /// that is claimed and not answered asks the caller to come back.
    pub fn try_processing(&mut self, key: &IdempotencyKey, user_id: u128, now: u64) -> (next:
        NextAction)
        ensures
            final(self)@.wf(),
            final(self)@ == old(self)@.claim(user_id, key@, now),
            match old(self)@.idempotency.get((user_id, key@)) {
                None => next is StartProcessing && next->StartProcessing_0@
                    == TransactionView::begin(user_id, key@),
                Some(state) => match state.response {
                    Some(response) => next is ReturnSavedResponse && next->ReturnSavedResponse_0@
                        == response,
                    None => next is RetryLater,
                },
            },
    {
        let (mut idempotency, issues, queue, subscribers) = self.take();
        let claim = idempotency.claim(user_id, key, now);
        self.put(idempotency, issues, queue, subscribers);
        match claim {
            Claim::Started => {
                proof {
                    use_type_invariant(key);
                }
                NextAction::StartProcessing(
                    Transaction {
                        user_id,
                        key: key.clone(),
                        issues: IssueStore::new(),
                        tasks: DeliveryQueue::new(),
                    },
                )
            },
            Claim::Completed(response) => NextAction::ReturnSavedResponse(response),
            Claim::InFlight => NextAction::RetryLater,
        }
    }

    /// Commits `transaction` with `response`: writes its issues, its
    /// tasks and the response together, and hands the response back.
    ///
    /// Where the key of the unit of work is not claimed nothing is
    /// written. Where the id of one of its issues is taken, that id is
    /// reported, the claim on its key is given up and nothing else is
    /// written.
    pub fn save_response(&mut self, transaction: Transaction, response: SavedResponse) -> (result:
        Result<SavedResponse, StoreError>)
        ensures
            transaction@.wf(),
            final(self)@.wf(),
            final(self)@ == old(self)@.commit(transaction@, response@),
            old(self)@.accepts(transaction@) ==> result is Ok && result->Ok_0@ == response@,
            !old(self)@.is_claimed(transaction@.user_id, transaction@.key) ==> result == Err::<
                SavedResponse,
                _,
            >(StoreError::NotClaimed),
            old(self)@.is_claimed(transaction@.user_id, transaction@.key) && old(self)@.clashes(
                transaction@,
            ) ==> result is Err && result->Err_0 is DuplicateIssue && old(self)@.issues.contains_key(result->Err_0->DuplicateIssue_0)
                && transaction@.issues.contains_key(result->Err_0->DuplicateIssue_0),
    {
        proof {
            use_type_invariant(&transaction);
        }
        let ghost before = self@;
        let ghost unit = transaction@;
        let (mut idempotency, mut issues, mut queue, subscribers) = self.take();
        let Transaction { user_id, key, issues: new_issues, tasks: new_tasks } = transaction;
        if !idempotency.is_claimed(user_id, &key) {
            self.put(idempotency, issues, queue, subscribers);
            return Err(StoreError::NotClaimed);
        }
        match issues.absorb(new_issues) {
            Ok(()) => {},
            Err(duplicate) => {
                idempotency.release(user_id, &key);
                self.put(idempotency, issues, queue, subscribers);
                return Err(StoreError::DuplicateIssue(duplicate.0));
            },
        }
        proof {
            assert forall|i: int, j: int|
                0 <= i < before.queue.len() && 0 <= j < unit.tasks.len() implies (
            #[trigger] before.queue[i]).key() != (#[trigger] unit.tasks[j]).key() by {
                assert(before.issues.contains_key(before.queue[i].issue_id));
                assert(unit.issues.contains_key(unit.tasks[j].issue_id));
            }
            lemma_concat_distinct(before.queue, unit.tasks);
        }
        let _ = queue.absorb(new_tasks);
        let result = idempotency.complete(user_id, &key, response);
        proof {
            let after = before.commit(unit, response@);
            assert(queue@ == after.queue);
            assert forall|i: int| 0 <= i < after.queue.len() implies after.issues.contains_key(
                (#[trigger] after.queue[i]).issue_id,
            ) by {
                if i < before.queue.len() {
                    assert(before.issues.contains_key(before.queue[i].issue_id));
                } else {
                    assert(after.queue[i] == unit.tasks[i - before.queue.len()]);
                }
            }
        }
        self.put(idempotency, issues, queue, subscribers);
        match result {
            Ok(response) => Ok(response),
            Err(_) => Err(StoreError::NotClaimed),
        }
    }

    /// Abandons `transaction`: gives up the claim on its key, so that
    /// nothing of it remains.
    pub fn rollback(&mut self, transaction: Transaction)
        ensures
            final(self)@.wf(),
            final(self)@ == old(self)@.rollback(transaction@.user_id, transaction@.key),
    {
        let (mut idempotency, issues, queue, subscribers) = self.take();
        let Transaction { user_id, key, issues: _, tasks: _ } = transaction;
        idempotency.release(user_id, &key);
        self.put(idempotency, issues, queue, subscribers);
    }

    /// Claims the first task of the queue that no worker has. The issue of
    /// a claimed task is stored. Nothing but the queue changes.
    pub fn dequeue_task(&mut self) -> (claimed: Option<ClaimedTask>)
        ensures
            final(self)@.wf(),
            final(self)@ == old(self)@.claim_task(),
            match next_task(old(self)@.queue) {
                Some(key) => claimed is Some && claimed->0@ == key && old(self)@.issues.contains_key(key.0),
                None => claimed is None,
            },
            ({
                let i = first_unlocked(old(self)@.queue);
                &&& 0 <= i <= old(self)@.queue.len()
                &&& forall|j: int| 0 <= j < i ==> (#[trigger] old(self)@.queue[j]).locked
                &&& i < old(self)@.queue.len() ==> !old(self)@.queue[i].locked
            }),
    {
        let (idempotency, issues, mut queue, subscribers) = self.take();
        let claimed = queue.claim_one();
        proof {
            let before = old(self)@;
            let i = first_unlocked(before.queue);
            if i < before.queue.len() {
                assert(before.issues.contains_key(before.queue[i].issue_id));
            }
            assert forall|k: int| 0 <= k < queue@.len() implies issues@.contains_key(
                (#[trigger] queue@[k]).issue_id,
            ) by {
                assert(before.issues.contains_key(before.queue[k].issue_id));
            }
        }
        self.put(idempotency, issues, queue, subscribers);
        claimed
    }

    /// Removes a claimed task from the queue, once its delivery was
    /// decided. Says whether it did: a task that is not in the queue, or
    /// that no worker has, changes nothing. Nothing but the queue changes.
    pub fn delete_task(&mut self, task: ClaimedTask) -> (deleted: bool)
        ensures
            final(self)@.wf(),
            deleted == is_claimed(old(self)@.queue, task@),
            final(self)@ == old(self)@.retire_task(task@),
    {
        let (idempotency, issues, mut queue, subscribers) = self.take();
        let deleted = queue.retire(task);
        proof {
            let before = old(self)@;
            assert forall|k: int| 0 <= k < queue@.len() implies issues@.contains_key(
                (#[trigger] queue@[k]).issue_id,
            ) by {
                if deleted {
                    let at = crate::rows::position_of(before.queue, task@);
                    let k0 = if k < at { k } else { k + 1 };
                    assert(before.issues.contains_key(before.queue[k0].issue_id));
                } else {
                    assert(before.issues.contains_key(before.queue[k].issue_id));
                }
            }
        }
        self.put(idempotency, issues, queue, subscribers);
        deleted
    }

    /// Gives a claimed task back to the queue, where the next worker can
    /// claim it. Says whether it did: a task that is not in the queue, or
    /// that no worker has, changes nothing. Nothing but the queue changes.
    pub fn release_task(&mut self, task: ClaimedTask) -> (released: bool)
        ensures
            final(self)@.wf(),
            released == is_claimed(old(self)@.queue, task@),
            final(self)@ == old(self)@.release_task(task@),
    {
        let (idempotency, issues, mut queue, subscribers) = self.take();
        let released = queue.release(task);
        proof {
            let before = old(self)@;
            assert forall|k: int| 0 <= k < queue@.len() implies issues@.contains_key(
                (#[trigger] queue@[k]).issue_id,
            ) by {
                assert(before.issues.contains_key(before.queue[k].issue_id));
            }
        }
        self.put(idempotency, issues, queue, subscribers);
        released
    }

    /// What a delivery needs of the issue stored under `issue_id`.
    pub fn get_newsletter_issue(&self, issue_id: u128) -> (found: Option<NewsletterIssueRecord>)
        ensures
            found is Some <==> self@.issues.contains_key(issue_id),
            found is Some ==> {
                &&& found->0.title@ == self@.issues[issue_id].title
                &&& found->0.text_content@ == self@.issues[issue_id].text_content
                &&& found->0.html_content@ == self@.issues[issue_id].html_content
            },
    {
        self.issues.get(issue_id)
    }

    /// The response stored for `key` of `user_id`, if there is one.
    pub fn get_saved_response(&self, key: &IdempotencyKey, user_id: u128) -> (saved: Option<
        SavedResponse,
    >)
        ensures
            match self@.idempotency.get((user_id, key@)) {
                Some(state) => match state.response {
                    Some(response) => saved is Some && saved->0@ == response,
                    None => saved is None,
                },
                None => saved is None,
            },
    {
        self.idempotency.get_saved_response(user_id, key)
    }

    /// Stores `response` for a key that the store does not know yet, and
    /// hands it back. A key that it knows is refused and changes nothing.
    pub fn saved_response(
        &mut self,
        key: &IdempotencyKey,
        user_id: u128,
        response: SavedResponse,
        now: u64,
    ) -> (result: Result<SavedResponse, StoreError>)
        ensures
            final(self)@.wf(),
            final(self)@ == old(self)@.record(user_id, key@, response@, now),
            match old(self)@.idempotency.get((user_id, key@)) {
                None => result is Ok && result->Ok_0@ == response@,
                Some(_) => result == Err::<SavedResponse, _>(StoreError::AlreadyRecorded),
            },
    {
        let (mut idempotency, issues, queue, subscribers) = self.take();
        let result = idempotency.saved_response(user_id, key, response, now);
        self.put(idempotency, issues, queue, subscribers);
        match result {
            Ok(response) => Ok(response),
            Err(_) => Err(StoreError::AlreadyRecorded),
        }
    }
}

} // verus!
