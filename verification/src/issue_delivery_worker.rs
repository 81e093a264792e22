//! The delivery worker: one iteration claims a task, decides what to do
//! with it and, once the email has left or failed, retires it.
//!
//! Sending is not done here. An iteration that has an email to send hands
//! it out together with the claimed task and is finished with
//! [`complete_delivery`] when the outcome of the sending is known.

use crate::delivery_queue::first_unlocked;
use crate::delivery_queue::next_task;
use crate::delivery_queue::ClaimedTask;
use crate::delivery_queue::DeliveryTask;
use crate::domain::subscriber_email::email_is_valid;
use crate::domain::subscriber_email::SubscriberEmail;
use crate::issue_store::NewsletterIssueRecord;
use crate::store::Store;
use crate::store::StoreView;
use vstd::prelude::*;

verus! {

/// How an iteration of the worker ended.
#[derive(Debug, Clone, Copy, PartialEq, Eq, Structural)]
pub enum ExecutionOutcome {
    TaskCompleted,
    EmptyQueue,
}

/// An email that is ready to be sent.
#[derive(Debug, PartialEq, Eq)]
pub struct OutgoingEmail {
    pub recipient: SubscriberEmail,
    pub subject: String,
    pub html_content: String,
    pub text_content: String,
}

/// What an [`OutgoingEmail`] holds.
pub struct OutgoingEmailView {
    pub recipient: Seq<char>,
    pub subject: Seq<char>,
    pub html_content: Seq<char>,
    pub text_content: Seq<char>,
}

impl View for OutgoingEmail {
    type V = OutgoingEmailView;

    open spec fn view(&self) -> OutgoingEmailView {
        OutgoingEmailView {
            recipient: self.recipient@,
            subject: self.subject@,
            html_content: self.html_content@,
            text_content: self.text_content@,
        }
    }
}

/// How the sending of an email ended.
#[derive(Debug, Clone, Copy, PartialEq, Eq, Structural)]
pub enum SendOutcome {
    Delivered,
    TransportFailure,
}

/// How a claimed task ended.
#[derive(Debug, Clone, Copy, PartialEq, Eq, Structural)]
pub enum DeliveryResult {
    Delivered,
    SkippedInvalidAddress,
    TransientFailure,
}

/// What went wrong in an iteration of the worker.
#[derive(Debug, Clone, Copy, PartialEq, Eq, Structural)]
pub enum DeliveryError {
    /// The issue of a claimed task is not stored.
    IssueNotFound(u128),
}

/// What an iteration of the worker found to do.
#[derive(Debug)]
pub enum DeliveryStep {
    /// No task could be claimed.
    EmptyQueue,
    /// The claimed task held an address that is no email address. It was
    /// retired without sending.
    SkippedInvalidAddress(DeliveryTask),
    /// The claimed task has this email to send. The task stays claimed
    /// until [`complete_delivery`] or [`abandon_delivery`] gets it back.
    Send(ClaimedTask, OutgoingEmail),
}

impl DeliveryStep {
    /// How the iteration ended, if it has: an iteration that has an email
    /// to send has not ended yet.
    pub fn outcome(&self) -> (outcome: Option<ExecutionOutcome>)
        ensures
            outcome == match *self {
                DeliveryStep::EmptyQueue => Some(ExecutionOutcome::EmptyQueue),
                DeliveryStep::SkippedInvalidAddress(_) => Some(ExecutionOutcome::TaskCompleted),
                DeliveryStep::Send(_, _) => None,
            },
    {
        match self {
            DeliveryStep::EmptyQueue => Some(ExecutionOutcome::EmptyQueue),
            DeliveryStep::SkippedInvalidAddress(_) => Some(ExecutionOutcome::TaskCompleted),
            DeliveryStep::Send(_, _) => None,
        }
    }
}

/// The email that delivers issue `issue_id` of `store` to `address`.
pub open spec fn email_for(store: StoreView, issue_id: u128, address: Seq<char>) -> OutgoingEmailView {
    OutgoingEmailView {
        recipient: address,
        subject: store.issues[issue_id].title,
        html_content: store.issues[issue_id].html_content,
        text_content: store.issues[issue_id].text_content,
    }
}

/// The email that brings `issue` to `recipient`.
pub fn outgoing_email(recipient: SubscriberEmail, issue: NewsletterIssueRecord) -> (email: OutgoingEmail)
    ensures
        email@ == (OutgoingEmailView {
            recipient: recipient@,
            subject: issue.title@,
            html_content: issue.html_content@,
            text_content: issue.text_content@,
        }),
{
    let NewsletterIssueRecord { title, text_content, html_content } = issue;
    OutgoingEmail { recipient, subject: title, html_content, text_content }
}

/// Whether a task is retired after its sending ended with `outcome`. It
/// is, either way: a failed sending is not tried again.
pub fn retires_task(outcome: SendOutcome) -> (retire: bool)
    ensures
        retire,
{
    match outcome {
        SendOutcome::Delivered => true,
        SendOutcome::TransportFailure => true,
    }
}

/// How a claimed task ends, given whether its stored address was
/// accepted and, where an email was sent, how the sending ended. A task
/// whose address was accepted has not ended before its email was sent.
pub fn task_result(address_accepted: bool, outcome: Option<SendOutcome>) -> (result: Option<
    DeliveryResult,
>)
    ensures
        result == (if !address_accepted {
            Some(DeliveryResult::SkippedInvalidAddress)
        } else {
            match outcome {
                Some(SendOutcome::Delivered) => Some(DeliveryResult::Delivered),
                Some(SendOutcome::TransportFailure) => Some(DeliveryResult::TransientFailure),
                None => None,
            }
        }),
{
    if !address_accepted {
        Some(DeliveryResult::SkippedInvalidAddress)
    } else {
        match outcome {
            Some(outcome) => Some(delivery_result(outcome)),
            None => None,
        }
    }
}

/// Whether a task is taken out of the queue once it has ended with
/// `result`. It is, however it ended: delivered, skipped for its address,
/// or failed in transport.
pub fn retires_after(result: DeliveryResult) -> (retire: bool)
    ensures
        retire,
{
    match result {
        DeliveryResult::Delivered => true,
        DeliveryResult::SkippedInvalidAddress => true,
        DeliveryResult::TransientFailure => true,
    }
}

/// How a task ended whose sending ended with `outcome`.
pub fn delivery_result(outcome: SendOutcome) -> (result: DeliveryResult)
    ensures
        outcome == SendOutcome::Delivered ==> result == DeliveryResult::Delivered,
        outcome == SendOutcome::TransportFailure ==> result == DeliveryResult::TransientFailure,
{
    match outcome {
        SendOutcome::Delivered => DeliveryResult::Delivered,
        SendOutcome::TransportFailure => DeliveryResult::TransientFailure,
    }
}

/// Decides what to do with the claimed task `task`, given what became of
/// parsing its stored address.
///
/// A refused address retires the task at once, so that it cannot block
/// the queue. An accepted address makes the email from the stored issue.
/// Where the issue is not stored, the task is given back to the queue and
/// the error reported.
pub fn plan_delivery(store: &mut Store, task: ClaimedTask, parsed: Result<SubscriberEmail, String>) -> (result:
    Result<DeliveryStep, DeliveryError>)
    ensures
        final(store)@.wf(),
        match parsed {
            Err(_) => {
                &&& result is Ok
                &&& result->Ok_0 is SkippedInvalidAddress
                &&& result->Ok_0->SkippedInvalidAddress_0.issue_id == task@.0
                &&& result->Ok_0->SkippedInvalidAddress_0.subscriber_email@ == task@.1
                &&& final(store)@ == old(store)@.retire_task(task@)
            },
            Ok(email) => if old(store)@.issues.contains_key(task@.0) {
                &&& result is Ok
                &&& result->Ok_0 is Send
                &&& result->Ok_0->Send_0@ == task@
                &&& result->Ok_0->Send_1@ == (OutgoingEmailView {
                    recipient: email@,
                    ..email_for(old(store)@, task@.0, task@.1)
                })
                &&& final(store)@ == old(store)@
            } else {
                &&& result == Err::<DeliveryStep, _>(DeliveryError::IssueNotFound(task@.0))
                &&& final(store)@ == old(store)@.release_task(task@)
            },
        },
{
    match parsed {
        Ok(recipient) => {
            let issue_id = task.issue_id();
            match store.get_newsletter_issue(issue_id) {
                Some(issue) => {
                    proof {
                        use_type_invariant(&*store);
                    }
                    Ok(DeliveryStep::Send(task, outgoing_email(recipient, issue)))
                },
                None => {
                    store.release_task(task);
                    Err(DeliveryError::IssueNotFound(issue_id))
                },
            }
        },
        Err(_) => {
            let skipped = DeliveryTask {
                issue_id: task.issue_id(),
                subscriber_email: task.subscriber_email().clone(),
            };
            if retires_after(DeliveryResult::SkippedInvalidAddress) {
                store.delete_task(task);
            } else {
                store.release_task(task);
            }
            Ok(DeliveryStep::SkippedInvalidAddress(skipped))
        },
    }
}

/// Begins an iteration of the worker: claims the first task that no
/// worker has and decides what to do with it.
///
/// Without such a task the queue is reported empty and nothing changes. A
/// task whose stored address is no email address is retired without
/// sending. Every other task stays claimed and is handed out with the
/// email to send, made from its address and its issue.
pub fn try_execute_delivery(store: &mut Store) -> (result: Result<DeliveryStep, DeliveryError>)
    ensures
        final(store)@.wf(),
        result is Ok,
        ({
            let i = first_unlocked(old(store)@.queue);
            &&& 0 <= i <= old(store)@.queue.len()
            &&& forall|j: int| 0 <= j < i ==> (#[trigger] old(store)@.queue[j]).locked
            &&& i < old(store)@.queue.len() ==> !old(store)@.queue[i].locked
        }),
        match next_task(old(store)@.queue) {
            None => result->Ok_0 is EmptyQueue && final(store)@ == old(store)@,
            Some(key) => if email_is_valid(key.1) {
                &&& result->Ok_0 is Send
                &&& result->Ok_0->Send_0@ == key
                &&& result->Ok_0->Send_1@ == email_for(old(store)@, key.0, key.1)
                &&& final(store)@ == old(store)@.claim_task()
            } else {
                &&& result->Ok_0 is SkippedInvalidAddress
                &&& result->Ok_0->SkippedInvalidAddress_0.issue_id == key.0
                &&& result->Ok_0->SkippedInvalidAddress_0.subscriber_email@ == key.1
                &&& final(store)@ == old(store)@.claim_task().retire_task(key)
            },
        },
{
    match store.dequeue_task() {
        None => Ok(DeliveryStep::EmptyQueue),
        Some(task) => {
            let parsed = SubscriberEmail::parse(task.subscriber_email().clone());
            plan_delivery(store, task, parsed)
        },
    }
}

/// Ends an iteration that had an email to send: whatever became of the
/// sending, the task is retired.
pub fn complete_delivery(store: &mut Store, task: ClaimedTask, outcome: SendOutcome) -> (result:
    ExecutionOutcome)
    ensures
        final(store)@.wf(),
        result == ExecutionOutcome::TaskCompleted,
        final(store)@ == old(store)@.retire_task(task@),
{
    if retires_after(delivery_result(outcome)) {
        store.delete_task(task);
    } else {
        store.release_task(task);
    }
    ExecutionOutcome::TaskCompleted
}

/// Ends an iteration that could not be finished: the task goes back to
/// the queue, where the next worker can claim it.
pub fn abandon_delivery(store: &mut Store, task: ClaimedTask)
    ensures
        final(store)@.wf(),
        final(store)@ == old(store)@.release_task(task@),
{
    store.release_task(task);
}

/// How long the worker rests between iterations.
#[derive(Debug, Clone, Copy, PartialEq, Eq, Structural)]
pub struct WorkerConfig {
    /// Seconds to wait after finding the queue empty.
    pub idle_backoff: u64,
    /// Seconds to wait after an iteration that failed.
    pub error_backoff: u64,
}

impl Default for WorkerConfig {
    fn default() -> (config: WorkerConfig)
        ensures
            config == (WorkerConfig { idle_backoff: 10, error_backoff: 1 }),
    {
        WorkerConfig { idle_backoff: 10, error_backoff: 1 }
    }
}

/// How an iteration of the worker went, for deciding how long to rest.
#[derive(Debug, Clone, Copy, PartialEq, Eq, Structural)]
pub enum Iteration {
    Finished(ExecutionOutcome),
    Failed,
}

/// The seconds to wait before the next iteration: none after a completed
/// task, the idle interval after an empty queue, the error interval after
/// a failure.
pub fn worker_loop_delay(config: &WorkerConfig, iteration: Iteration) -> (seconds: u64)
    ensures
        seconds == match iteration {
            Iteration::Finished(ExecutionOutcome::TaskCompleted) => 0,
            Iteration::Finished(ExecutionOutcome::EmptyQueue) => config.idle_backoff,
            Iteration::Failed => config.error_backoff,
        },
{
    match iteration {
        Iteration::Finished(ExecutionOutcome::TaskCompleted) => 0,
        Iteration::Finished(ExecutionOutcome::EmptyQueue) => config.idle_backoff,
        Iteration::Failed => config.error_backoff,
    }
}

} // verus!
