//! Asking the store for a key, and answering a request for good.

use super::key::IdempotencyKey;
use super::persistence::Claim;
use super::response::InvalidStatusCode;
use super::response::ResponseRow;
use super::response::SavedResponse;
use crate::store::NextAction;
use crate::store::Store;
use crate::store::StoreError;
use crate::store::Transaction;
use crate::store::TransactionView;
use vstd::prelude::*;

verus! {

/// Reads the outcome of a claim off what the table reported: how many
/// rows the placeholder added, and the response fields of the row that
/// was there already, if it has any.
///
/// A placeholder that was added means that the key is claimed. Otherwise
/// the key belongs to an earlier request: with response fields that
/// request is answered, without it is in flight. Response fields whose
/// status is no status of a response are an error.
pub fn claim_outcome(n_inserted_rows: u64, saved: Option<ResponseRow>) -> (result: Result<
    Claim,
    InvalidStatusCode,
>)
    ensures
        n_inserted_rows > 0 ==> result is Ok && result->Ok_0 is Started,
        n_inserted_rows == 0 ==> match saved {
            None => result is Ok && result->Ok_0 is InFlight,
            Some(row) => match row@.to_response() {
                Some(response) => result is Ok && result->Ok_0 is Completed
                    && result->Ok_0->Completed_0@ == response,
                None => result == Err::<Claim, _>(InvalidStatusCode(row.response_status_code)),
            },
        },
{
    if n_inserted_rows > 0 {
        return Ok(Claim::Started);
    }
    match saved {
        None => Ok(Claim::InFlight),
        Some(row) => match SavedResponse::from_row(row) {
            Ok(response) => Ok(Claim::Completed(response)),
            Err(error) => Err(error),
        },
    }
}

/// Asks for `idempotency_key` of `user_id`. A free key is claimed and a
/// unit of work handed out; a key that is answered gives its response; a
/// key that is claimed and not answered asks the caller to come back.
pub fn try_processing(store: &mut Store, idempotency_key: &IdempotencyKey, user_id: u128, now: u64) -> (next:
    NextAction)
    ensures
        final(store)@.wf(),
        final(store)@ == old(store)@.claim(user_id, idempotency_key@, now),
        match old(store)@.idempotency.get((user_id, idempotency_key@)) {
            None => next is StartProcessing && next->StartProcessing_0@ == TransactionView::begin(
                user_id,
                idempotency_key@,
            ),
            Some(state) => match state.response {
                Some(response) => next is ReturnSavedResponse && next->ReturnSavedResponse_0@
                    == response,
                None => next is RetryLater,
            },
        },
{
    store.try_processing(idempotency_key, user_id, now)
}

/// Commits `transaction` with `http_response`: writes its issues, its
/// tasks and the response together, and hands the response back.
///
/// Where the key of the unit of work is not claimed nothing is written.
/// Where the id of one of its issues is taken, that id is reported, the
/// claim on its key is given up and nothing else is written.
pub fn save_response(store: &mut Store, transaction: Transaction, http_response: SavedResponse) -> (result:
    Result<SavedResponse, StoreError>)
    ensures
        transaction@.wf(),
        final(store)@.wf(),
        final(store)@ == old(store)@.commit(transaction@, http_response@),
        old(store)@.accepts(transaction@) ==> result is Ok && result->Ok_0@ == http_response@,
        !old(store)@.is_claimed(transaction@.user_id, transaction@.key) ==> result == Err::<
            SavedResponse,
            _,
        >(StoreError::NotClaimed),
        old(store)@.is_claimed(transaction@.user_id, transaction@.key) && old(store)@.clashes(
            transaction@,
        ) ==> result is Err && result->Err_0 is DuplicateIssue && old(store)@.issues.contains_key(
            result->Err_0->DuplicateIssue_0,
        ) && transaction@.issues.contains_key(result->Err_0->DuplicateIssue_0),
{
    store.save_response(transaction, http_response)
}

/// The response stored for `idempotency_key` of `user_id`, if there is
/// one.
pub fn get_saved_response(store: &Store, idempotency_key: &IdempotencyKey, user_id: u128) -> (saved:
    Option<SavedResponse>)
    ensures
        match store@.idempotency.get((user_id, idempotency_key@)) {
            Some(state) => match state.response {
                Some(response) => saved is Some && saved->0@ == response,
                None => saved is None,
            },
            None => saved is None,
        },
{
    store.get_saved_response(idempotency_key, user_id)
}

/// Stores `http_response` for a key that the store does not know yet,
/// and hands it back. A key that it knows is refused and changes nothing.
pub fn saved_response(
    store: &mut Store,
    idempotency_key: &IdempotencyKey,
    user_id: u128,
    http_response: SavedResponse,
    now: u64,
) -> (result: Result<SavedResponse, StoreError>)
    ensures
        final(store)@.wf(),
        final(store)@ == old(store)@.record(user_id, idempotency_key@, http_response@, now),
        match old(store)@.idempotency.get((user_id, idempotency_key@)) {
            None => result is Ok && result->Ok_0@ == http_response@,
            Some(_) => result == Err::<SavedResponse, _>(StoreError::AlreadyRecorded),
        },
{
    store.saved_response(idempotency_key, user_id, http_response, now)
}

} // verus!
