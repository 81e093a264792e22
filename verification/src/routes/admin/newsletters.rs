//! Publishing an issue through the queue: the request is answered once,
//! however often it is repeated, and its issue and delivery tasks are
//! written together with the answer.

use crate::authentication::middleware::UserId;
use crate::delivery_queue::tasks_for;
use crate::delivery_queue::TaskView;
use crate::domain::subscribers::confirmed_emails;
use crate::domain::subscribers::lemma_confirmed_emails_distinct;
use crate::idempotency::key::is_valid_key;
use crate::idempotency::key::IdempotencyKey;
use crate::idempotency::key::IdempotencyKeyError;
use crate::idempotency::persistence::RecordState;
use crate::idempotency::response::HeaderPairView;
use crate::idempotency::response::ResponseView;
use crate::idempotency::response::SavedResponse;
use crate::issue_store::new_issue_id;
use crate::issue_store::Issue;
use crate::issue_store::IssueRow;
use crate::issue_store::IssueView;
use crate::rows::keys_distinct;
use crate::store::lemma_tasks_of_new_issue;
use crate::store::NextAction;
use crate::store::Store;
use crate::store::StoreError;
use crate::store::StoreView;
use crate::store::Transaction;
use vstd::prelude::*;
use vstd::string::*;

verus! {

/// The page that tells the administrator that the issue was accepted.
pub const ACCEPTED_PAGE: &'static str = r#"
        <!DOCTYPE html>
        <html lang="en">
            <head>
                <meta http-equiv="content-type" content="text/htlm; charset=utf-8">
                <title>Newsletter published!</title>
            </head>
            <body>
                <h1>Your issue has been accepted and emails will go out shortly!</h1>
                <p>
                    <a href="/admin/dashboard">&lt;- Dashboard</a>
                    <a href="/admin/newsletters">&lt;- Send new Issue</a>
                </p>
            </body>
        </html>"#;

/// The form that publishes an issue.
#[derive(Debug)]
pub struct IssueFormContent {
    pub title: String,
    pub html_content: String,
    pub text_content: String,
    pub idempotency_key: String,
}

/// What an [`IssueFormContent`] holds.
pub struct IssueFormView {
    pub title: Seq<char>,
    pub html_content: Seq<char>,
    pub text_content: Seq<char>,
    pub idempotency_key: Seq<char>,
}

impl View for IssueFormContent {
    type V = IssueFormView;

    open spec fn view(&self) -> IssueFormView {
        IssueFormView {
            title: self.title@,
            html_content: self.html_content@,
            text_content: self.text_content@,
            idempotency_key: self.idempotency_key@,
        }
    }
}

impl IssueFormView {
    /// The issue that the form asks to publish, under `issue_id` and
    /// dated `now`.
    pub open spec fn issue(self, issue_id: u128, now: u64) -> IssueRow {
        IssueRow {
            issue_id,
            title: self.title,
            html_content: self.html_content,
            text_content: self.text_content,
            published_at: now,
        }
    }
}

/// Why a submission was not answered with a response.
#[derive(Debug, Clone, Copy, PartialEq, Eq, Structural)]
pub enum PublishError {
    /// The idempotency key is malformed: the client's fault.
    ValidationError(IdempotencyKeyError),
    /// A request with the same key is at work: ask again shortly.
    KeyInFlight,
    /// The store refused a write.
    UnexpectedError(StoreError),
}

/// What the client is told of a request whose key is in flight.
pub const IN_FLIGHT_MESSAGE: &'static str =
    "A request with the same idempotency key is being processed.";

/// What the client is told of a failure that is not its fault.
pub const UNEXPECTED_MESSAGE: &'static str = "Something went wrong on our side.";

/// The response that reports an error: its status, a plain-text content
/// type, and the message as body.
pub open spec fn error_response_view(status_code: u16, message: Seq<char>) -> ResponseView {
    ResponseView {
        status_code,
        headers: seq![
            HeaderPairView {
                name: "content-type"@,
                value: "text/plain; charset=utf-8".spec_bytes(),
            },
        ],
        body: vstd::utf8::encode_utf8(message),
    }
}

impl PublishError {
    /// What the client is told of this error: why its key was refused, or
    /// that something went wrong.
    pub open spec fn message_text(self) -> Seq<char> {
        match self {
            PublishError::ValidationError(IdempotencyKeyError::Empty) => "The idempotency key cannot be empty!"@,
            PublishError::ValidationError(IdempotencyKeyError::TooLong) => "The idempotency key must be shorter than 50 characters."@,
            PublishError::KeyInFlight => IN_FLIGHT_MESSAGE@,
            PublishError::UnexpectedError(_) => UNEXPECTED_MESSAGE@,
        }
    }

    /// The status that this error is reported with.
    pub open spec fn status(self) -> u16 {
        if self is ValidationError {
            400
        } else {
            500
        }
    }

    /// What the client is told of this error.
    pub fn message(&self) -> (text: String)
        ensures
            text@ == self.message_text(),
    {
        match self {
            PublishError::ValidationError(error) => error.message(),
            PublishError::KeyInFlight => String::from_str(IN_FLIGHT_MESSAGE),
            PublishError::UnexpectedError(_) => String::from_str(UNEXPECTED_MESSAGE),
        }
    }

    /// The response that reports this error to the client: a client
    /// error for a malformed key, a server error for everything else.
    pub fn error_response(&self) -> (response: SavedResponse)
        ensures
            response@ == error_response_view(self.status(), self.message_text()),
    {
        let status_code = self.status_code();
        let message = self.message();
        let response = match SavedResponse::build(status_code) {
            Some(response) => response,
            None => vstd::pervasive::unreached(),
        };
        let response = response.append_header(
            String::from_str("content-type"),
            "text/plain; charset=utf-8".as_bytes_vec(),
        ).body(message.as_str().as_bytes_vec());
        proof {
            assert(response@.headers =~= error_response_view(status_code, message@).headers);
            assert(response@ == error_response_view(status_code, message@));
        }
        response
    }

    /// The status that this error is reported with: 400 for a malformed
    /// key, 500 for everything else.
    pub fn status_code(&self) -> (code: u16)
        ensures
            code == self.status(),
    {
        match self {
            PublishError::ValidationError(_) => 400,
            _ => 500,
        }
    }
}

/// Why `key` is refused as an idempotency key, if it is.
pub open spec fn key_error(key: Seq<char>) -> IdempotencyKeyError {
    if key.len() == 0 {
        IdempotencyKeyError::Empty
    } else {
        IdempotencyKeyError::TooLong
    }
}

/// The response to an accepted issue: status 200, an HTML content type,
/// and [`ACCEPTED_PAGE`] as body.
pub open spec fn accepted_response_view() -> ResponseView {
    ResponseView {
        status_code: 200,
        headers: seq![
            HeaderPairView {
                name: "content-type"@,
                value: "text/html; charset=utf-8".spec_bytes(),
            },
        ],
        body: ACCEPTED_PAGE.spec_bytes(),
    }
}

/// The response to an accepted issue.
pub fn accepted_response() -> (response: SavedResponse)
    ensures
        response@ == accepted_response_view(),
{
    let response = match SavedResponse::build(200) {
        Some(response) => response,
        None => vstd::pervasive::unreached(),
    };
    let response = response.append_header(
        String::from_str("content-type"),
        "text/html; charset=utf-8".as_bytes_vec(),
    ).body(ACCEPTED_PAGE.as_bytes_vec());
    proof {
        assert(response@.headers =~= accepted_response_view().headers);
    }
    response
}

/// What a submission is answered with, given the store as it was.
///
/// A malformed key is refused. A key that is answered gives its response
/// again and a key that is claimed is in flight. A free key is answered
/// with the accepted response, unless the id of the issue is taken.
pub open spec fn submit_issue_result(store: StoreView, user_id: u128, form: IssueFormView, issue_id: u128) -> Result<
    ResponseView,
    PublishError,
> {
    let id = (user_id, form.idempotency_key);
    if !is_valid_key(form.idempotency_key) {
        Err(PublishError::ValidationError(key_error(form.idempotency_key)))
    } else if store.idempotency.contains_key(id) {
        match store.idempotency[id].response {
            Some(response) => Ok(response),
            None => Err(PublishError::KeyInFlight),
        }
    } else if store.issues.contains_key(issue_id) {
        Err(PublishError::UnexpectedError(StoreError::DuplicateIssue(issue_id)))
    } else {
        Ok(accepted_response_view())
    }
}

/// Whether a submission does the work: its key is well-formed and free,
/// and so is the id of the issue.
pub open spec fn submit_issue_publishes(store: StoreView, user_id: u128, form: IssueFormView, issue_id: u128) -> bool {
    &&& is_valid_key(form.idempotency_key)
    &&& !store.idempotency.contains_key((user_id, form.idempotency_key))
    &&& !store.issues.contains_key(issue_id)
}

/// The store after a submission.
///
/// Where the submission does the work, the issue is stored, one task for
/// each subscriber confirmed at that moment joins the queue, and the
/// accepted response is recorded under the key. In every other case the
/// store stays as it was.
pub open spec fn submit_issue_store(
    store: StoreView,
    user_id: u128,
    form: IssueFormView,
    issue_id: u128,
    now: u64,
) -> StoreView {
    if submit_issue_publishes(store, user_id, form, issue_id) {
        StoreView {
            idempotency: store.idempotency.insert(
                (user_id, form.idempotency_key),
                RecordState::placeholder(now).completed(accepted_response_view()),
            ),
            issues: store.issues.insert(issue_id, form.issue(issue_id, now).content()),
            queue: store.queue + tasks_for(issue_id, confirmed_emails(store.subscribers)),
            subscribers: store.subscribers,
        }
    } else {
        store
    }
}

/// Puts a new issue into the unit of work, under `issue_id`, and hands
/// the id back.
///
/// Every call adds a row of its own; nothing is deduplicated. Only an id
/// that is taken, in `store` or in the unit of work itself, is refused,
/// and the unit of work then stays as it was. An id that is taken in the
/// store after this call is refused when the unit of work is committed.
pub fn insert_newsletter_issue_with_id(
    store: &Store,
    transaction: &mut Transaction,
    issue_id: u128,
    title: &str,
    text_content: &str,
    html_content: &str,
    now: u64,
) -> (result: Result<u128, StoreError>)
    ensures
        final(transaction)@.wf(),
        if store@.sees_issue(old(transaction)@, issue_id) {
            &&& result == Err::<u128, _>(StoreError::DuplicateIssue(issue_id))
            &&& final(transaction)@ == old(transaction)@
        } else {
            &&& result == Ok::<_, StoreError>(issue_id)
            &&& final(transaction)@ == old(transaction)@.with_issue(
                IssueRow {
                    issue_id,
                    title: title@,
                    html_content: html_content@,
                    text_content: text_content@,
                    published_at: now,
                },
            )
        },
{
    transaction.insert_issue(
        store,
        Issue {
            issue_id,
            title: String::from_str(title),
            html_content: String::from_str(html_content),
            text_content: String::from_str(text_content),
            published_at: now,
        },
    )
}

/// Puts a new issue into the unit of work, under an id made for it, and
/// hands the id back.
///
/// Every call adds a row of its own, with an id of its own; nothing is
/// deduplicated. Should the new id be taken, in `store` or in the unit of
/// work itself, it is refused and the unit of work stays as it was.
pub fn insert_newsletter_issue(
    store: &Store,
    transaction: &mut Transaction,
    title: &str,
    text_content: &str,
    html_content: &str,
    now: u64,
) -> (result: Result<u128, StoreError>)
    ensures
        final(transaction)@.wf(),
        match result {
            Ok(issue_id) => {
                &&& !store@.sees_issue(old(transaction)@, issue_id)
                &&& final(transaction)@ == old(transaction)@.with_issue(
                    IssueRow {
                        issue_id,
                        title: title@,
                        html_content: html_content@,
                        text_content: text_content@,
                        published_at: now,
                    },
                )
            },
            Err(error) => {
                &&& error is DuplicateIssue
                &&& store@.sees_issue(old(transaction)@, error->DuplicateIssue_0)
                &&& final(transaction)@ == old(transaction)@
            },
        },
{
    let issue_id = new_issue_id();
    insert_newsletter_issue_with_id(
        store,
        transaction,
        issue_id,
        title,
        text_content,
        html_content,
        now,
    )
}

/// Puts into the unit of work one delivery task of issue `issue_id` for
/// each subscriber who is confirmed in `store` at this moment. Later
/// confirmations do not change the list.
///
/// The issue has to be one of the unit of work. Where the unit of work
/// holds a task of the issue for one of these subscribers already, the
/// list is refused. A refusal leaves the unit of work as it was.
pub fn enqueue_delivery_tasks(store: &Store, transaction: &mut Transaction, issue_id: u128) -> (result:
    Result<(), StoreError>)
    ensures
        final(transaction)@.wf(),
        if !old(transaction)@.issues.contains_key(issue_id) {
            &&& result == Err::<(), _>(StoreError::UnknownIssue(issue_id))
            &&& final(transaction)@ == old(transaction)@
        } else if keys_distinct(
            old(transaction)@.tasks + tasks_for(issue_id, confirmed_emails(store@.subscribers)),
        ) {
            &&& result is Ok
            &&& final(transaction)@ == old(transaction)@.with_tasks(
                issue_id,
                confirmed_emails(store@.subscribers),
            )
        } else {
            &&& result == Err::<(), _>(StoreError::DuplicateTask(issue_id))
            &&& final(transaction)@ == old(transaction)@
        },
{
    let emails = store.get_confirmed_subscribers();
    transaction.enqueue(issue_id, &emails)
}

/// Handles the submission of an issue by `user_id`, with `issue_id` for
/// the issue in case it is stored.
///
/// The answer is [`submit_issue_result`] and the store afterwards is
/// [`submit_issue_store`]: the first submission under a key stores the
/// issue, enqueues its deliveries and records its response in one step;
/// every later one gets that response again and changes nothing.
pub fn submit_issue(
    store: &mut Store,
    user_id: UserId,
    body: IssueFormContent,
    issue_id: u128,
    now: u64,
) -> (result: Result<SavedResponse, PublishError>)
    ensures
        final(store)@.wf(),
        final(store)@ == submit_issue_store(old(store)@, user_id.0, body@, issue_id, now),
        match submit_issue_result(old(store)@, user_id.0, body@, issue_id) {
            Ok(response) => result is Ok && result->Ok_0@ == response,
            Err(error) => result == Err::<SavedResponse, _>(error),
        },
{
    let ghost before = store@;
    let ghost form = body@;
    let IssueFormContent { title, html_content, text_content, idempotency_key } = body;
    let key = match IdempotencyKey::try_from(idempotency_key) {
        Ok(key) => key,
        Err(error) => {
            proof {
                use_type_invariant(&*store);
            }
            return Err(PublishError::ValidationError(error));
        },
    };
    proof {
        use_type_invariant(&key);
    }
    let mut transaction = match store.try_processing(&key, user_id.0, now) {
        NextAction::StartProcessing(transaction) => transaction,
        NextAction::ReturnSavedResponse(response) => {
            return Ok(response);
        },
        NextAction::RetryLater => {
            return Err(PublishError::KeyInFlight);
        },
    };
    let ghost claimed = store@;
    let ghost id = (user_id.0, form.idempotency_key);
    let inserted = insert_newsletter_issue_with_id(
        store,
        &mut transaction,
        issue_id,
        title.as_str(),
        text_content.as_str(),
        html_content.as_str(),
        now,
    );
    if let Err(error) = inserted {
        store.rollback(transaction);
        proof {
            assert(store@.idempotency =~= before.idempotency);
        }
        return Err(PublishError::UnexpectedError(error));
    }
    proof {
        use_type_invariant(&*store);
        lemma_confirmed_emails_distinct(before.subscribers);
        lemma_tasks_of_new_issue(
            Seq::empty(),
            issue_id,
            confirmed_emails(before.subscribers),
        );
        assert(Seq::<TaskView>::empty() + tasks_for(
            issue_id,
            confirmed_emails(before.subscribers),
        ) =~= tasks_for(issue_id, confirmed_emails(before.subscribers)));
    }
    let enqueued = enqueue_delivery_tasks(store, &mut transaction, issue_id);
    let ghost unit = transaction@;
    let saved = store.save_response(transaction, accepted_response());
    proof {
        assert(enqueued is Ok);
        assert(unit.issues =~= Map::<u128, IssueView>::empty().insert(
            issue_id,
            form.issue(issue_id, now).content(),
        ));
        assert(unit.tasks == tasks_for(issue_id, confirmed_emails(before.subscribers)));
        assert(claimed.issues.dom().disjoint(unit.issues.dom()));
        assert(claimed.issues.union_prefer_right(unit.issues) =~= before.issues.insert(
            issue_id,
            form.issue(issue_id, now).content(),
        ));
        assert(claimed.idempotency.insert(
            id,
            claimed.idempotency[id].completed(accepted_response_view()),
        ) =~= before.idempotency.insert(
            id,
            RecordState::placeholder(now).completed(accepted_response_view()),
        ));
    }
    match saved {
        Ok(response) => Ok(response),
        Err(error) => Err(PublishError::UnexpectedError(error)),
    }
}

/// Handles the submission of an issue by `user_id`; the issue gets an id
/// made for it.
///
/// A malformed key is refused and a repeated request is answered as it
/// was answered before, both without a change to the store; a key that
/// another request holds is reported as in flight. Otherwise the issue
/// is stored, its deliveries are enqueued and the accepted response is
/// recorded and returned, unless the new id is taken.
pub fn publish_issue_form_submission(
    store: &mut Store,
    user_id: UserId,
    body: IssueFormContent,
    now: u64,
) -> (result: Result<SavedResponse, PublishError>)
    ensures
        final(store)@.wf(),
        exists|issue_id: u128|
            {
                &&& final(store)@ == submit_issue_store(old(store)@, user_id.0, body@, issue_id, now)
                &&& match #[trigger] submit_issue_result(old(store)@, user_id.0, body@, issue_id) {
                    Ok(response) => result is Ok && result->Ok_0@ == response,
                    Err(error) => result == Err::<SavedResponse, _>(error),
                }
            },
        !is_valid_key(body@.idempotency_key) ==> result == Err::<SavedResponse, _>(
            PublishError::ValidationError(key_error(body@.idempotency_key)),
        ) && final(store)@ == old(store)@,
        old(store)@.idempotency.contains_key((user_id.0, body@.idempotency_key)) && is_valid_key(
            body@.idempotency_key,
        ) ==> final(store)@ == old(store)@ && match old(store)@.idempotency[(
            user_id.0,
            body@.idempotency_key,
        )].response {
            Some(response) => result is Ok && result->Ok_0@ == response,
            None => result == Err::<SavedResponse, _>(PublishError::KeyInFlight),
        },
{
    let issue_id = new_issue_id();
    submit_issue(store, user_id, body, issue_id, now)
}

} // verus!
