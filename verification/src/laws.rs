//! What holds of the store whatever is done to it: the operations of the
//! store as a state machine, and the laws of idempotent publication and
//! of the delivery queue.

use crate::delivery_queue::after_claim;
use crate::delivery_queue::after_retire;
use crate::delivery_queue::first_unlocked;
use crate::delivery_queue::is_claimed;
use crate::delivery_queue::is_first_unlocked;
use crate::delivery_queue::next_task;
use crate::delivery_queue::tasks_for;
use crate::delivery_queue::TaskView;
use crate::domain::subscriber_email::email_is_valid;
use crate::domain::subscribers::confirmed_emails;
use crate::domain::subscribers::lemma_confirmed_emails_distinct;
use crate::issue_delivery_worker::email_for;
use crate::issue_delivery_worker::OutgoingEmailView;
use crate::routes::admin::newsletters::accepted_response_view;
use crate::routes::admin::newsletters::submit_issue_publishes;
use crate::routes::admin::newsletters::submit_issue_result;
use crate::routes::admin::newsletters::submit_issue_store;
use crate::routes::admin::newsletters::IssueFormView;
use crate::idempotency::response::ResponseView;
use crate::rows::has_key;
use crate::rows::is_at;
use crate::rows::keys_distinct;
use crate::rows::lemma_absent_from_map;
use crate::rows::lemma_concat_distinct;
use crate::rows::lemma_found;
use crate::rows::lemma_push;
use crate::rows::lemma_remove;
use crate::rows::lemma_update;
use crate::rows::position_of;
use crate::rows::Keyed;
use crate::store::lemma_tasks_of_new_issue;
use crate::store::StoreView;
use crate::store::TransactionView;
use vstd::prelude::*;

verus! {

/// One operation of the store.
pub enum Operation {
    /// A request asks for its key.
    Claim { user_id: u128, key: Seq<char>, now: u64 },
    /// A unit of work is committed with its response.
    Commit { transaction: TransactionView, response: ResponseView },
    /// A unit of work is abandoned.
    Rollback { user_id: u128, key: Seq<char> },
    /// A response is recorded for a key without a record.
    Record { user_id: u128, key: Seq<char>, response: ResponseView, now: u64 },
    /// Somebody subscribes.
    InsertSubscriber { email: Seq<char> },
    /// A subscriber confirms.
    ConfirmSubscriber { email: Seq<char> },
    /// A worker claims a task.
    ClaimTask,
    /// A worker retires the task it holds.
    RetireTask { task: (u128, Seq<char>) },
    /// A worker gives the task it holds back.
    ReleaseTask { task: (u128, Seq<char>) },
}

impl Operation {
    /// Whether the operation can occur: a unit of work that is committed
    /// is well-formed.
    pub open spec fn valid(self) -> bool {
        self matches Operation::Commit { transaction, .. } ==> transaction.wf()
    }
}

/// The store after `operation`.
pub open spec fn apply(store: StoreView, operation: Operation) -> StoreView {
    match operation {
        Operation::Claim { user_id, key, now } => store.claim(user_id, key, now),
        Operation::Commit { transaction, response } => store.commit(transaction, response),
        Operation::Rollback { user_id, key } => store.rollback(user_id, key),
        Operation::Record { user_id, key, response, now } => store.record(
            user_id,
            key,
            response,
            now,
        ),
        Operation::InsertSubscriber { email } => store.insert_subscriber(email),
        Operation::ConfirmSubscriber { email } => store.confirm_subscriber(email),
        Operation::ClaimTask => store.claim_task(),
        Operation::RetireTask { task } => store.retire_task(task),
        Operation::ReleaseTask { task } => store.release_task(task),
    }
}

/// The store after the operations of `history`, one after the other.
pub open spec fn run(store: StoreView, history: Seq<Operation>) -> StoreView
    decreases history.len(),
{
    if history.len() == 0 {
        store
    } else {
        apply(run(store, history.drop_last()), history.last())
    }
}

/// Whether every operation of `history` can occur.
pub open spec fn all_valid(history: Seq<Operation>) -> bool {
    forall|i: int| 0 <= i < history.len() ==> (#[trigger] history[i]).valid()
}

/// What `after` keeps of `before`: every response that was recorded, every
/// issue that was stored, and for the issues that were stored no task
/// that was not in the queue.
pub open spec fn keeps(before: StoreView, after: StoreView) -> bool {
    &&& forall|id: (u128, Seq<char>)|
        #![trigger after.idempotency.contains_key(id)]
        #![trigger before.idempotency[id]]
        before.idempotency.contains_key(id) && before.idempotency[id].response is Some
            ==> after.idempotency.contains_key(id) && after.idempotency[id]
            == before.idempotency[id]
    &&& forall|issue_id: u128|
        #![trigger after.issues.contains_key(issue_id)]
        #![trigger before.issues[issue_id]]
        before.issues.contains_key(issue_id) ==> after.issues.contains_key(issue_id)
            && after.issues[issue_id] == before.issues[issue_id]
    &&& forall|j: int|
        0 <= j < after.queue.len() && before.issues.contains_key(
            (#[trigger] after.queue[j]).issue_id,
        ) ==> has_key(before.queue, after.queue[j].key())
}

/// A store keeps everything of itself.
pub proof fn lemma_keeps_itself(store: StoreView)
    ensures
        keeps(store, store),
{
    assert forall|j: int|
        0 <= j < store.queue.len() && store.issues.contains_key(
            (#[trigger] store.queue[j]).issue_id,
        ) implies has_key(store.queue, store.queue[j].key()) by {
        assert(is_at(store.queue, store.queue[j].key(), j));
    }
}

/// What is kept twice over is kept.
pub proof fn lemma_keeps_on(first: StoreView, second: StoreView, third: StoreView)
    requires
        keeps(first, second),
        keeps(second, third),
    ensures
        keeps(first, third),
{
    assert forall|id: (u128, Seq<char>)|
        first.idempotency.contains_key(id) && first.idempotency[id].response is Some implies #[trigger]
        third.idempotency.contains_key(id) && third.idempotency[id] == first.idempotency[id] by {
        assert(second.idempotency.contains_key(id));
    }
    assert forall|issue_id: u128| first.issues.contains_key(issue_id) implies #[trigger]
        third.issues.contains_key(issue_id) && third.issues[issue_id] == first.issues[issue_id] by {
        assert(second.issues.contains_key(issue_id));
    }
    assert forall|j: int|
        0 <= j < third.queue.len() && first.issues.contains_key(
            (#[trigger] third.queue[j]).issue_id,
        ) implies has_key(first.queue, third.queue[j].key()) by {
        let key = third.queue[j].key();
        assert(second.issues.contains_key(key.0));
        assert(has_key(second.queue, key));
        let k = position_of(second.queue, key);
        assert(is_at(second.queue, key, k));
        assert(second.queue[k].issue_id == key.0);
    }
}

/// One operation leaves the store well-formed and keeps what it held.
pub proof fn lemma_step(store: StoreView, operation: Operation)
    requires
        store.wf(),
        operation.valid(),
    ensures
        apply(store, operation).wf(),
        keeps(store, apply(store, operation)),
{
    let after = apply(store, operation);
    lemma_keeps_itself(store);
    match operation {
        Operation::Claim { user_id, key, now } => {},
        Operation::Commit { transaction, response } => {
            if store.accepts(transaction) {
                let added = transaction.tasks;
                assert forall|i: int, j: int|
                    0 <= i < store.queue.len() && 0 <= j < added.len() implies (
                #[trigger] store.queue[i]).key() != (#[trigger] added[j]).key() by {
                    assert(store.issues.contains_key(store.queue[i].issue_id));
                    assert(transaction.issues.contains_key(added[j].issue_id));
                }
                lemma_concat_distinct(store.queue, added);
                assert forall|j: int| 0 <= j < after.queue.len() implies after.issues.contains_key(
                    (#[trigger] after.queue[j]).issue_id,
                ) by {
                    if j < store.queue.len() {
                        assert(store.issues.contains_key(store.queue[j].issue_id));
                    } else {
                        assert(after.queue[j] == added[j - store.queue.len()]);
                    }
                }
                assert forall|j: int|
                    0 <= j < after.queue.len() && store.issues.contains_key(
                        (#[trigger] after.queue[j]).issue_id,
                    ) implies has_key(store.queue, after.queue[j].key()) by {
                    if j < store.queue.len() {
                        assert(is_at(store.queue, store.queue[j].key(), j));
                    } else {
                        assert(after.queue[j] == added[j - store.queue.len()]);
                        assert(transaction.issues.contains_key(added[j - store.queue.len()].issue_id));
                    }
                }
            }
        },
        Operation::Rollback { user_id, key } => {},
        Operation::Record { user_id, key, response, now } => {},
        Operation::InsertSubscriber { email } => {
            if !has_key(store.subscribers, email) {
                lemma_absent_from_map(store.subscribers, email);
                lemma_push(
                    store.subscribers,
                    crate::domain::subscribers::SubscriberView {
                        email,
                        status: crate::domain::subscriber_status::SubscriberStatus::PendingConfirmation,
                    },
                );
            }
        },
        Operation::ConfirmSubscriber { email } => {
            if has_key(store.subscribers, email) {
                let i = position_of(store.subscribers, email);
                assert(is_at(store.subscribers, email, i));
                lemma_update(store.subscribers, i, store.subscribers[i].confirmed());
            }
        },
        Operation::ClaimTask => {
            let i = first_unlocked(store.queue);
            if exists|k: int| is_first_unlocked(store.queue, k) {
                assert(is_first_unlocked(store.queue, i));
                lemma_update(store.queue, i, store.queue[i].claimed());
                assert forall|j: int| 0 <= j < after.queue.len() implies after.issues.contains_key(
                    (#[trigger] after.queue[j]).issue_id,
                ) && has_key(store.queue, after.queue[j].key()) by {
                    assert(store.issues.contains_key(store.queue[j].issue_id));
                    assert(is_at(store.queue, store.queue[j].key(), j));
                }
            }
        },
        Operation::RetireTask { task: key } => {
            if is_claimed(store.queue, key) {
                let i = position_of(store.queue, key);
                assert(is_at(store.queue, key, i));
                lemma_remove(store.queue, i);
                assert forall|j: int| 0 <= j < after.queue.len() implies after.issues.contains_key(
                    (#[trigger] after.queue[j]).issue_id,
                ) && has_key(store.queue, after.queue[j].key()) by {
                    let j0 = if j < i { j } else { j + 1 };
                    assert(after.queue[j] == store.queue[j0]);
                    assert(store.issues.contains_key(store.queue[j0].issue_id));
                    assert(is_at(store.queue, store.queue[j0].key(), j0));
                }
            }
        },
        Operation::ReleaseTask { task: key } => {
            if is_claimed(store.queue, key) {
                let i = position_of(store.queue, key);
                assert(is_at(store.queue, key, i));
                lemma_update(store.queue, i, store.queue[i].released());
                assert forall|j: int| 0 <= j < after.queue.len() implies after.issues.contains_key(
                    (#[trigger] after.queue[j]).issue_id,
                ) && has_key(store.queue, after.queue[j].key()) by {
                    assert(store.issues.contains_key(store.queue[j].issue_id));
                    assert(is_at(store.queue, store.queue[j].key(), j));
                }
            }
        },
    }
}

/// Whatever is done to a well-formed store, it stays well-formed, keeps
/// every recorded response and every stored issue as they were, and gets
/// no new task for an issue that it held already.
pub proof fn lemma_history(store: StoreView, history: Seq<Operation>)
    requires
        store.wf(),
        all_valid(history),
    ensures
        run(store, history).wf(),
        keeps(store, run(store, history)),
    decreases history.len(),
{
    if history.len() == 0 {
        lemma_keeps_itself(store);
    } else {
        let earlier = history.drop_last();
        assert forall|i: int| 0 <= i < earlier.len() implies (#[trigger] earlier[i]).valid() by {
            assert(history[i].valid());
        }
        lemma_history(store, earlier);
        assert(history[history.len() - 1].valid());
        lemma_step(run(store, earlier), history.last());
        lemma_keeps_on(store, run(store, earlier), run(store, history));
    }
}

/// The unit of work of a submission that does the work.
pub open spec fn submission(
    store: StoreView,
    user_id: u128,
    form: IssueFormView,
    issue_id: u128,
    now: u64,
) -> TransactionView {
    TransactionView::begin(user_id, form.idempotency_key).with_issue(
        form.issue(issue_id, now),
    ).with_tasks(issue_id, confirmed_emails(store.subscribers))
}

/// A submission is a claim on its key followed by the commit of its unit
/// of work, where it does the work, and nothing at all where it does not.
/// Either way the store stays well-formed and keeps what it held.
pub proof fn lemma_submission(
    store: StoreView,
    user_id: u128,
    form: IssueFormView,
    issue_id: u128,
    now: u64,
)
    requires
        store.wf(),
    ensures
        submit_issue_store(store, user_id, form, issue_id, now).wf(),
        keeps(store, submit_issue_store(store, user_id, form, issue_id, now)),
        submit_issue_publishes(store, user_id, form, issue_id) ==> submit_issue_store(
            store,
            user_id,
            form,
            issue_id,
            now,
        ) == store.claim(user_id, form.idempotency_key, now).commit(
            submission(store, user_id, form, issue_id, now),
            accepted_response_view(),
        ),
{
    if submit_issue_publishes(store, user_id, form, issue_id) {
        let id = (user_id, form.idempotency_key);
        let unit = submission(store, user_id, form, issue_id, now);
        let claimed = store.claim(user_id, form.idempotency_key, now);
        let committed = claimed.commit(unit, accepted_response_view());
        lemma_confirmed_emails_distinct(store.subscribers);
        lemma_tasks_of_new_issue(Seq::empty(), issue_id, confirmed_emails(store.subscribers));
        assert(unit.tasks =~= tasks_for(issue_id, confirmed_emails(store.subscribers)));
        assert(unit.issues =~= Map::<u128, crate::issue_store::IssueView>::empty().insert(
            issue_id,
            form.issue(issue_id, now).content(),
        ));
        assert(claimed.issues.dom().disjoint(unit.issues.dom()));
        assert(claimed.issues.union_prefer_right(unit.issues) =~= store.issues.insert(
            issue_id,
            form.issue(issue_id, now).content(),
        ));
        let claim = Operation::Claim { user_id, key: form.idempotency_key, now };
        let commit = Operation::Commit { transaction: unit, response: accepted_response_view() };
        lemma_step(store, claim);
        lemma_step(claimed, commit);
        lemma_keeps_on(store, claimed, committed);
        assert(committed.idempotency =~= submit_issue_store(
            store,
            user_id,
            form,
            issue_id,
            now,
        ).idempotency);
    } else {
        lemma_keeps_itself(store);
    }
}

/// Idempotence. Once a submission was answered with a response, every
/// later submission under the same key of the same user is answered with
/// that response and changes nothing, whatever happened to the store in
/// between and whatever id and time the repetition brings.
pub proof fn lemma_resubmission_is_replayed(
    store: StoreView,
    user_id: u128,
    form: IssueFormView,
    issue_id: u128,
    now: u64,
    history: Seq<Operation>,
    retry_issue_id: u128,
    retry_now: u64,
)
    requires
        store.wf(),
        all_valid(history),
        submit_issue_result(store, user_id, form, issue_id) is Ok,
    ensures
        ({
            let later = run(submit_issue_store(store, user_id, form, issue_id, now), history);
            &&& later.wf()
            &&& submit_issue_result(later, user_id, form, retry_issue_id) == submit_issue_result(
                store,
                user_id,
                form,
                issue_id,
            )
            &&& submit_issue_store(later, user_id, form, retry_issue_id, retry_now) == later
        }),
{
    let submitted = submit_issue_store(store, user_id, form, issue_id, now);
    let id = (user_id, form.idempotency_key);
    lemma_submission(store, user_id, form, issue_id, now);
    lemma_history(submitted, history);
    assert(submitted.idempotency.contains_key(id));
    assert(submitted.idempotency[id].response == Some(
        submit_issue_result(store, user_id, form, issue_id)->Ok_0,
    ));
    assert(run(submitted, history).idempotency.contains_key(id));
}

/// A submission that does the work stores exactly one issue and one task
/// for each subscriber who is confirmed at that moment.
pub proof fn lemma_submission_writes_once(
    store: StoreView,
    user_id: u128,
    form: IssueFormView,
    issue_id: u128,
    now: u64,
)
    requires
        store.issues.dom().finite(),
        submit_issue_publishes(store, user_id, form, issue_id),
    ensures
        ({
            let submitted = submit_issue_store(store, user_id, form, issue_id, now);
            &&& submitted.issues.len() == store.issues.len() + 1
            &&& submitted.queue.len() == store.queue.len() + confirmed_emails(
                store.subscribers,
            ).len()
            &&& submitted.subscribers == store.subscribers
        }),
{
}

/// Concurrency safety, first half. A free key is claimed by the first
/// request that asks for it; a request that asks while the key is claimed
/// finds it in flight and changes nothing.
pub proof fn lemma_claim_is_exclusive(store: StoreView, user_id: u128, key: Seq<char>, now: u64, later: u64)
    requires
        !store.idempotency.contains_key((user_id, key)),
    ensures
        store.claim(user_id, key, now).is_claimed(user_id, key),
        store.claim(user_id, key, now).claim(user_id, key, later) == store.claim(
            user_id,
            key,
            now,
        ),
{
}

/// Concurrency safety, second half. Once a unit of work was committed,
/// its response answers its key for good: whatever happens afterwards,
/// asking for the key changes nothing, and no unit of work for the same
/// key is accepted again, so that its issue and tasks are written once.
pub proof fn lemma_commit_is_final(
    store: StoreView,
    transaction: TransactionView,
    response: ResponseView,
    history: Seq<Operation>,
    other: TransactionView,
    other_response: ResponseView,
    now: u64,
)
    requires
        store.wf(),
        transaction.wf(),
        all_valid(history),
        store.accepts(transaction),
        other.user_id == transaction.user_id,
        other.key == transaction.key,
    ensures
        ({
            let id = (transaction.user_id, transaction.key);
            let later = run(store.commit(transaction, response), history);
            &&& later.idempotency.contains_key(id)
            &&& later.idempotency[id].response == Some(response)
            &&& later.claim(transaction.user_id, transaction.key, now) == later
            &&& !later.is_claimed(other.user_id, other.key)
            &&& !later.accepts(other)
            &&& later.commit(other, other_response) == later
        }),
{
    let id = (transaction.user_id, transaction.key);
    let committed = store.commit(transaction, response);
    lemma_step(store, Operation::Commit { transaction, response });
    lemma_history(committed, history);
    assert(committed.idempotency.contains_key(id));
    assert(run(committed, history).idempotency.contains_key(id));
}

/// What a request that asks for its key is told.
pub enum Answer {
    /// The key was free: the request does the work.
    Started,
    /// Another request holds the key: come back.
    InFlight,
    /// The key is answered: this is the response.
    Replayed(ResponseView),
}

/// What a request that asks the store for `key` of `user_id` is told.
pub open spec fn answer(store: StoreView, user_id: u128, key: Seq<char>) -> Answer {
    match store.idempotency.get((user_id, key)) {
        None => Answer::Started,
        Some(state) => match state.response {
            Some(response) => Answer::Replayed(response),
            None => Answer::InFlight,
        },
    }
}

/// The store after as many requests asked for `key` of `user_id` as
/// `times` has entries, one after the other.
pub open spec fn asks(store: StoreView, user_id: u128, key: Seq<char>, times: Seq<u64>) -> StoreView
    decreases times.len(),
{
    if times.len() == 0 {
        store
    } else {
        asks(store, user_id, key, times.drop_last()).claim(user_id, key, times.last())
    }
}

/// However often a key that has a record is asked for, nothing changes.
pub proof fn lemma_asking_changes_nothing(store: StoreView, user_id: u128, key: Seq<char>, times: Seq<u64>)
    requires
        store.idempotency.contains_key((user_id, key)),
    ensures
        asks(store, user_id, key, times) == store,
    decreases times.len(),
{
    if times.len() > 0 {
        lemma_asking_changes_nothing(store, user_id, key, times.drop_last());
    }
}

/// Concurrency safety, for any number of requests. Of the requests that
/// submit under one free key, the first to ask does the work. Those that
/// ask before it has committed, however many, find the key in flight and
/// change nothing; those that ask afterwards, however many, are told the
/// response that it saved and change nothing. The store then is what one
/// submission alone makes of it: one issue, one set of tasks, one record.
pub proof fn lemma_concurrent_submissions(
    store: StoreView,
    user_id: u128,
    form: IssueFormView,
    issue_id: u128,
    now: u64,
    early: Seq<u64>,
    late: Seq<u64>,
)
    requires
        store.wf(),
        submit_issue_publishes(store, user_id, form, issue_id),
    ensures
        ({
            let key = form.idempotency_key;
            let claimed = store.claim(user_id, key, now);
            let committed = asks(claimed, user_id, key, early).commit(
                submission(store, user_id, form, issue_id, now),
                accepted_response_view(),
            );
            &&& answer(store, user_id, key) == Answer::Started
            &&& answer(claimed, user_id, key) == Answer::InFlight
            &&& asks(claimed, user_id, key, early) == claimed
            &&& committed == submit_issue_store(store, user_id, form, issue_id, now)
            &&& answer(committed, user_id, key) == Answer::Replayed(accepted_response_view())
            &&& asks(committed, user_id, key, late) == committed
            &&& committed.wf()
        }),
{
    let key = form.idempotency_key;
    let claimed = store.claim(user_id, key, now);
    lemma_asking_changes_nothing(claimed, user_id, key, early);
    lemma_submission(store, user_id, form, issue_id, now);
    let committed = submit_issue_store(store, user_id, form, issue_id, now);
    lemma_asking_changes_nothing(committed, user_id, key, late);
}

/// Snapshot semantics. The tasks of an issue are for subscribers who were
/// confirmed when the issue was submitted: whatever happens afterwards,
/// every task of that issue in the queue is for one of them.
pub proof fn lemma_tasks_are_a_snapshot(
    store: StoreView,
    user_id: u128,
    form: IssueFormView,
    issue_id: u128,
    now: u64,
    history: Seq<Operation>,
)
    requires
        store.wf(),
        all_valid(history),
        submit_issue_publishes(store, user_id, form, issue_id),
    ensures
        ({
            let later = run(submit_issue_store(store, user_id, form, issue_id, now), history);
            forall|j: int|
                0 <= j < later.queue.len() && (#[trigger] later.queue[j]).issue_id == issue_id
                    ==> confirmed_emails(store.subscribers).contains(
                    later.queue[j].subscriber_email,
                )
        }),
{
    let submitted = submit_issue_store(store, user_id, form, issue_id, now);
    let later = run(submitted, history);
    let snapshot = confirmed_emails(store.subscribers);
    lemma_submission(store, user_id, form, issue_id, now);
    lemma_history(submitted, history);
    assert forall|j: int|
        0 <= j < later.queue.len() && (#[trigger] later.queue[j]).issue_id
            == issue_id implies snapshot.contains(later.queue[j].subscriber_email) by {
        let key = later.queue[j].key();
        assert(submitted.issues.contains_key(issue_id));
        assert(has_key(submitted.queue, key));
        let k = position_of(submitted.queue, key);
        assert(is_at(submitted.queue, key, k));
        if k < store.queue.len() {
            assert(store.issues.contains_key(store.queue[k].issue_id));
        } else {
            let at = k - store.queue.len();
            assert(submitted.queue[k] == tasks_for(issue_id, snapshot)[at]);
            assert(snapshot[at] == key.1);
        }
    }
}

/// A confirmation changes nothing but the status of the subscriber: the
/// queue is the same before and after.
pub proof fn lemma_confirmation_leaves_queue(store: StoreView, email: Seq<char>)
    ensures
        store.confirm_subscriber(email).queue == store.queue,
        store.confirm_subscriber(email).issues == store.issues,
        store.confirm_subscriber(email).idempotency == store.idempotency,
{
}

/// Skip-locked correctness. A task that a worker holds is never handed
/// out by a claim.
pub proof fn lemma_claimed_task_is_passed_over(queue: Seq<TaskView>, key: (u128, Seq<char>))
    requires
        keys_distinct(queue),
        is_claimed(queue, key),
    ensures
        next_task(queue) != Some(key),
{
    let i = first_unlocked(queue);
    if i < queue.len() && queue[i].key() == key {
        assert(is_first_unlocked(queue, i));
        lemma_found(queue, i);
    }
}

/// Skip-locked correctness. The task that a claim hands out is held from
/// then on, so that the next claim hands out another one or none.
pub proof fn lemma_two_claims_differ(queue: Seq<TaskView>)
    requires
        keys_distinct(queue),
        next_task(queue) is Some,
    ensures
        keys_distinct(after_claim(queue)),
        is_claimed(after_claim(queue), next_task(queue)->0),
        next_task(after_claim(queue)) != next_task(queue),
{
    let i = first_unlocked(queue);
    assert(is_first_unlocked(queue, i));
    let after = after_claim(queue);
    lemma_update(queue, i, queue[i].claimed());
    assert(is_at(after, queue[i].key(), i));
    lemma_found(after, i);
    lemma_claimed_task_is_passed_over(after, queue[i].key());
}

/// Skip-locked correctness. A worker holds its task until it retires it
/// or gives it back: no other operation takes the task out of its hands.
pub proof fn lemma_claim_is_held(store: StoreView, operation: Operation, key: (u128, Seq<char>))
    requires
        store.wf(),
        operation.valid(),
        is_claimed(store.queue, key),
        operation != (Operation::RetireTask { task: key }),
        operation != (Operation::ReleaseTask { task: key }),
    ensures
        is_claimed(apply(store, operation).queue, key),
{
    let queue = store.queue;
    let after = apply(store, operation).queue;
    let at = position_of(queue, key);
    assert(is_at(queue, key, at));
    lemma_step(store, operation);
    match operation {
        Operation::Commit { transaction, response } => {
            if store.accepts(transaction) {
                assert(is_at(after, key, at));
                lemma_found(after, at);
            }
        },
        Operation::ClaimTask => {
            let i = first_unlocked(queue);
            if exists|k: int| is_first_unlocked(queue, k) {
                assert(is_first_unlocked(queue, i));
                assert(is_at(after, key, at));
                lemma_found(after, at);
            }
        },
        Operation::RetireTask { task: other } => {
            if is_claimed(queue, other) {
                let i = position_of(queue, other);
                assert(is_at(queue, other, i));
                let moved = if at < i { at } else { at - 1 };
                assert(after[moved] == queue[at]);
                assert(is_at(after, key, moved));
                lemma_found(after, moved);
            }
        },
        Operation::ReleaseTask { task: other } => {
            if is_claimed(queue, other) {
                let i = position_of(queue, other);
                assert(is_at(queue, other, i));
                assert(is_at(after, key, at));
                lemma_found(after, at);
            }
        },
        _ => {},
    }
}

/// Whether every operation of `history` is a worker that claims a task or
/// retires the task it holds.
pub open spec fn workers_only(history: Seq<Operation>) -> bool {
    forall|i: int|
        0 <= i < history.len() ==> (#[trigger] history[i]) is ClaimTask || history[i] is RetireTask
}

/// The tasks that the claims of `history` hand out, in their order.
pub open spec fn handed_out(store: StoreView, history: Seq<Operation>) -> Seq<(u128, Seq<char>)>
    decreases history.len(),
{
    if history.len() == 0 {
        Seq::empty()
    } else {
        let earlier = handed_out(store, history.drop_last());
        match (history.last(), next_task(run(store, history.drop_last()).queue)) {
            (Operation::ClaimTask, Some(key)) => earlier.push(key),
            _ => earlier,
        }
    }
}

/// The keys of the tasks of `queue`, in order.
pub open spec fn keys_of(queue: Seq<TaskView>) -> Seq<(u128, Seq<char>)> {
    queue.map_values(|task: TaskView| task.key())
}

/// How a queue that only workers touched stands to the queue it began as
/// and to the tasks handed out since: a task is held exactly if it was
/// handed out, nothing was handed out twice or from elsewhere, and every
/// task of the beginning is still in the queue or was handed out.
pub open spec fn tracks(
    initial: Seq<TaskView>,
    queue: Seq<TaskView>,
    log: Seq<(u128, Seq<char>)>,
) -> bool {
    &&& keys_distinct(queue)
    &&& log.no_duplicates()
    &&& forall|k: int| 0 <= k < log.len() ==> has_key(initial, #[trigger] log[k])
    &&& forall|j: int|
        0 <= j < queue.len() ==> has_key(initial, (#[trigger] queue[j]).key()) && (queue[j].locked
            <==> log.contains(queue[j].key()))
    &&& forall|i: int|
        0 <= i < initial.len() ==> log.contains((#[trigger] initial[i]).key()) || has_key(
            queue,
            initial[i].key(),
        )
}

proof fn lemma_claim_tracks(initial: Seq<TaskView>, queue: Seq<TaskView>, log: Seq<(u128, Seq<char>)>)
    requires
        tracks(initial, queue, log),
        next_task(queue) is Some,
    ensures
        tracks(initial, after_claim(queue), log.push(next_task(queue)->0)),
{
    let i = first_unlocked(queue);
    assert(is_first_unlocked(queue, i));
    let key = queue[i].key();
    let after = after_claim(queue);
    let grown = log.push(key);
    lemma_update(queue, i, queue[i].claimed());
    assert(!log.contains(key));
    assert forall|a: int, b: int|
        0 <= a < grown.len() && 0 <= b < grown.len() && a != b implies grown[a] != grown[b] by {
        if a < log.len() && b < log.len() {
            assert(log[a] != log[b]);
        } else if a < log.len() {
            assert(log[a] != key);
        } else {
            assert(log[b] != key);
        }
    }
    assert forall|k: int| 0 <= k < grown.len() implies has_key(initial, #[trigger] grown[k]) by {
        if k < log.len() {
            assert(grown[k] == log[k]);
        }
    }
    assert forall|j: int| 0 <= j < after.len() implies has_key(
        initial,
        (#[trigger] after[j]).key(),
    ) && (after[j].locked <==> grown.contains(after[j].key())) by {
        assert(after[j].key() == queue[j].key());
        if j == i {
            assert(grown[log.len() as int] == key);
        } else {
            if j < i {
                assert(queue[j].key() != queue[i].key());
            } else {
                assert(queue[i].key() != queue[j].key());
            }
            if log.contains(queue[j].key()) {
                let k = log.index_of(queue[j].key());
                assert(grown[k] == queue[j].key());
            }
            if grown.contains(queue[j].key()) {
                let k = grown.index_of(queue[j].key());
                assert(k < log.len());
                assert(log[k] == queue[j].key());
            }
        }
    }
    assert forall|m: int| 0 <= m < initial.len() implies grown.contains(
        (#[trigger] initial[m]).key(),
    ) || has_key(after, initial[m].key()) by {
        let wanted = initial[m].key();
        if log.contains(wanted) {
            let k = log.index_of(wanted);
            assert(grown[k] == wanted);
        } else {
            let j = position_of(queue, wanted);
            assert(is_at(queue, wanted, j));
            assert(is_at(after, wanted, j));
        }
    }
}

proof fn lemma_retire_tracks(
    initial: Seq<TaskView>,
    queue: Seq<TaskView>,
    log: Seq<(u128, Seq<char>)>,
    task: (u128, Seq<char>),
)
    requires
        tracks(initial, queue, log),
    ensures
        tracks(initial, after_retire(queue, task), log),
{
    if is_claimed(queue, task) {
        let i = position_of(queue, task);
        assert(is_at(queue, task, i));
        let after = queue.remove(i);
        lemma_remove(queue, i);
        assert(log.contains(queue[i].key()));
        assert forall|j: int| 0 <= j < after.len() implies has_key(
            initial,
            (#[trigger] after[j]).key(),
        ) && (after[j].locked <==> log.contains(after[j].key())) by {
            let j0 = if j < i { j } else { j + 1 };
            assert(after[j] == queue[j0]);
        }
        assert forall|m: int| 0 <= m < initial.len() implies log.contains(
            (#[trigger] initial[m]).key(),
        ) || has_key(after, initial[m].key()) by {
            let wanted = initial[m].key();
            if !log.contains(wanted) {
                let j = position_of(queue, wanted);
                assert(is_at(queue, wanted, j));
                assert(j != i);
                let j1 = if j < i { j } else { j - 1 };
                assert(is_at(after, wanted, j1));
            }
        }
    }
}

/// Skip-locked correctness, for a whole run. However the claims and the
/// retirements of any number of workers follow one another on a queue
/// that began with waiting tasks, no task is handed out twice and none
/// that was not in the queue; and once the queue is empty, every task of
/// the beginning was handed out, each exactly once.
pub proof fn lemma_workers_share_the_queue(store: StoreView, history: Seq<Operation>)
    requires
        store.wf(),
        forall|i: int| 0 <= i < store.queue.len() ==> !(#[trigger] store.queue[i]).locked,
        workers_only(history),
    ensures
        tracks(store.queue, run(store, history).queue, handed_out(store, history)),
        handed_out(store, history).no_duplicates(),
        forall|k: int|
            0 <= k < handed_out(store, history).len() ==> has_key(
                store.queue,
                #[trigger] handed_out(store, history)[k],
            ),
        run(store, history).queue.len() == 0 ==> handed_out(store, history).len()
            == store.queue.len() && handed_out(store, history).to_set() == keys_of(
            store.queue,
        ).to_set(),
    decreases history.len(),
{
    let initial = store.queue;
    let log = handed_out(store, history);
    let after = run(store, history);
    if history.len() == 0 {
        assert forall|j: int| 0 <= j < initial.len() implies has_key(
            initial,
            (#[trigger] initial[j]).key(),
        ) && !log.contains(initial[j].key()) by {
            assert(is_at(initial, initial[j].key(), j));
        }
    } else {
        let earlier = history.drop_last();
        assert forall|i: int| 0 <= i < earlier.len() implies (#[trigger] earlier[i]) is ClaimTask
            || earlier[i] is RetireTask by {
            assert(history[i] is ClaimTask || history[i] is RetireTask);
        }
        lemma_workers_share_the_queue(store, earlier);
        let before = run(store, earlier);
        assert(history[history.len() - 1] is ClaimTask || history[history.len() - 1] is RetireTask);
        match history.last() {
            Operation::ClaimTask => {
                if next_task(before.queue) is Some {
                    lemma_claim_tracks(initial, before.queue, handed_out(store, earlier));
                }
            },
            Operation::RetireTask { task } => {
                lemma_retire_tracks(initial, before.queue, handed_out(store, earlier), task);
            },
            _ => {},
        }
    }
    if after.queue.len() == 0 {
        let keys = keys_of(initial);
        assert forall|a: int, b: int|
            0 <= a < keys.len() && 0 <= b < keys.len() && a != b implies keys[a] != keys[b] by {
            if a < b {
                assert(initial[a].key() != initial[b].key());
            } else {
                assert(initial[b].key() != initial[a].key());
            }
        }
        assert forall|key: (u128, Seq<char>)| log.to_set().contains(key) <==> keys.to_set().contains(
            key,
        ) by {
            if log.contains(key) {
                let k = log.index_of(key);
                assert(has_key(initial, log[k]));
                let m = position_of(initial, key);
                assert(is_at(initial, key, m));
                assert(keys[m] == key);
            }
            if keys.contains(key) {
                let m = keys.index_of(key);
                assert(initial[m].key() == key);
                assert(log.contains(initial[m].key()) || has_key(after.queue, initial[m].key()));
                if has_key(after.queue, key) {
                    let j = position_of(after.queue, key);
                    assert(is_at(after.queue, key, j));
                }
            }
        }
        assert(log.to_set() =~= keys.to_set());
        log.unique_seq_to_set();
        keys.unique_seq_to_set();
    }
}

/// The store after one iteration of a worker that is carried through:
/// the first task that no worker had is gone.
pub open spec fn iteration(store: StoreView) -> StoreView {
    match next_task(store.queue) {
        Some(key) => store.claim_task().retire_task(key),
        None => store,
    }
}

/// The email that one iteration of a worker sends, if it sends one: a
/// task whose address is no email address is retired without.
pub open spec fn iteration_email(store: StoreView) -> Option<OutgoingEmailView> {
    match next_task(store.queue) {
        Some(key) => if email_is_valid(key.1) {
            Some(email_for(store, key.0, key.1))
        } else {
            None
        },
        None => None,
    }
}

/// The store after `n` iterations in a row.
pub open spec fn drained(store: StoreView, n: nat) -> StoreView
    decreases n,
{
    if n == 0 {
        store
    } else {
        drained(iteration(store), (n - 1) as nat)
    }
}

/// The emails that `n` iterations in a row send, in their order.
pub open spec fn emails_sent(store: StoreView, n: nat) -> Seq<OutgoingEmailView>
    decreases n,
{
    if n == 0 {
        Seq::empty()
    } else {
        let first = match iteration_email(store) {
            Some(email) => seq![email],
            None => Seq::empty(),
        };
        first + emails_sent(iteration(store), (n - 1) as nat)
    }
}

/// The emails that deliver the tasks of `queue`, one for each.
pub open spec fn emails_for(store: StoreView, queue: Seq<TaskView>) -> Seq<OutgoingEmailView> {
    queue.map_values(|task: TaskView| email_for(store, task.issue_id, task.subscriber_email))
}

/// One iteration on a queue of waiting tasks retires the first of them.
pub proof fn lemma_iteration_takes_first(store: StoreView)
    requires
        store.wf(),
        store.queue.len() > 0,
        forall|i: int| 0 <= i < store.queue.len() ==> !(#[trigger] store.queue[i]).locked,
    ensures
        next_task(store.queue) == Some(store.queue[0].key()),
        iteration(store) == (StoreView { queue: store.queue.drop_first(), ..store }),
        iteration(store).wf(),
{
    let queue = store.queue;
    crate::delivery_queue::lemma_first_unlocked(queue, 0);
    let claimed = after_claim(queue);
    lemma_update(queue, 0, queue[0].claimed());
    assert(is_at(claimed, queue[0].key(), 0));
    lemma_found(claimed, 0);
    assert(claimed.remove(0) =~= queue.drop_first());
    lemma_step(store, Operation::ClaimTask);
    lemma_step(store.claim_task(), Operation::RetireTask { task: queue[0].key() });
}

/// At-least-once delivery. Where no worker is at work and every task
/// holds an email address, as many iterations as there are tasks send one
/// email for each task, in the order of the queue, and leave the queue
/// empty; records, issues and subscribers stay as they were.
pub proof fn lemma_queue_is_drained(store: StoreView)
    requires
        store.wf(),
        forall|i: int| 0 <= i < store.queue.len() ==> !(#[trigger] store.queue[i]).locked,
        forall|i: int|
            0 <= i < store.queue.len() ==> email_is_valid(
                (#[trigger] store.queue[i]).subscriber_email,
            ),
    ensures
        drained(store, store.queue.len()) == (StoreView { queue: Seq::empty(), ..store }),
        emails_sent(store, store.queue.len()) == emails_for(store, store.queue),
        emails_sent(store, store.queue.len()).len() == store.queue.len(),
    decreases store.queue.len(),
{
    if store.queue.len() == 0 {
        assert(store.queue =~= Seq::empty());
        assert(emails_for(store, store.queue) =~= Seq::empty());
    } else {
        let next = iteration(store);
        lemma_iteration_takes_first(store);
        assert forall|i: int| 0 <= i < next.queue.len() implies !(#[trigger] next.queue[i]).locked
            && email_is_valid(next.queue[i].subscriber_email) by {
            assert(next.queue[i] == store.queue[i + 1]);
        }
        lemma_queue_is_drained(next);
        assert(email_is_valid(store.queue[0].subscriber_email));
        assert(emails_for(next, next.queue) =~= emails_for(store, store.queue).drop_first());
        assert(emails_sent(store, store.queue.len()) =~= emails_for(store, store.queue));
    }
}

/// At-least-once delivery, from publication on. After an issue was
/// submitted to a store with an empty queue whose confirmed subscribers
/// all hold email addresses, as many iterations as there are confirmed
/// subscribers send exactly one email to each of them and leave the
/// queue empty.
pub proof fn lemma_published_issue_is_delivered(
    store: StoreView,
    user_id: u128,
    form: IssueFormView,
    issue_id: u128,
    now: u64,
)
    requires
        store.wf(),
        store.queue.len() == 0,
        submit_issue_publishes(store, user_id, form, issue_id),
        forall|i: int|
            0 <= i < confirmed_emails(store.subscribers).len() ==> email_is_valid(
                #[trigger] confirmed_emails(store.subscribers)[i],
            ),
    ensures
        ({
            let submitted = submit_issue_store(store, user_id, form, issue_id, now);
            let subscribers = confirmed_emails(store.subscribers);
            let sent = emails_sent(submitted, subscribers.len());
            &&& sent.len() == subscribers.len()
            &&& forall|i: int|
                0 <= i < subscribers.len() ==> (#[trigger] sent[i]) == (OutgoingEmailView {
                    recipient: subscribers[i],
                    subject: form.title,
                    html_content: form.html_content,
                    text_content: form.text_content,
                })
            &&& drained(submitted, subscribers.len()).queue.len() == 0
        }),
{
    let submitted = submit_issue_store(store, user_id, form, issue_id, now);
    let subscribers = confirmed_emails(store.subscribers);
    lemma_submission(store, user_id, form, issue_id, now);
    assert(submitted.queue =~= tasks_for(issue_id, subscribers));
    assert forall|i: int| 0 <= i < submitted.queue.len() implies !(
    #[trigger] submitted.queue[i]).locked && email_is_valid(
        submitted.queue[i].subscriber_email,
    ) by {
        assert(email_is_valid(subscribers[i]));
    }
    lemma_queue_is_drained(submitted);
}

} // verus!
