//! The table of idempotency records: one row per user and key, first a
//! placeholder that claims the key, later the response that answers every
//! repetition of the request.

use super::key::IdempotencyKey;
use super::response::ResponseView;
use super::response::SavedResponse;
use crate::rows::as_map;
use crate::rows::keys_distinct;
use crate::rows::lemma_absent;
use crate::rows::lemma_count;
use crate::rows::lemma_found;
use crate::rows::lemma_push;
use crate::rows::lemma_remove;
use crate::rows::lemma_update;
use crate::rows::Keyed;
use vstd::prelude::*;

verus! {

/// One row of the table.
#[derive(Debug)]
pub struct IdempotencyRecord {
    pub user_id: u128,
    pub idempotency_key: String,
    /// Nothing while the row is a placeholder.
    pub response: Option<SavedResponse>,
    pub created_at: u64,
}

/// What an [`IdempotencyRecord`] holds.
pub struct RecordView {
    pub user_id: u128,
    pub idempotency_key: Seq<char>,
    pub response: Option<ResponseView>,
    pub created_at: u64,
}

impl View for IdempotencyRecord {
    type V = RecordView;

    open spec fn view(&self) -> RecordView {
        RecordView {
            user_id: self.user_id,
            idempotency_key: self.idempotency_key@,
            response: match self.response {
                Some(response) => Some(response@),
                None => None,
            },
            created_at: self.created_at,
        }
    }
}

impl Keyed for RecordView {
    type Key = (u128, Seq<char>);

    open spec fn key(self) -> (u128, Seq<char>) {
        (self.user_id, self.idempotency_key)
    }
}

/// What the table knows of one key of one user.
pub struct RecordState {
    /// Nothing while the key is only claimed.
    pub response: Option<ResponseView>,
    pub created_at: u64,
}

impl RecordState {
    /// A claim that no response has been written onto yet.
    pub open spec fn placeholder(created_at: u64) -> RecordState {
        RecordState { response: None, created_at }
    }

    /// This state with `response` written onto it.
    pub open spec fn completed(self, response: ResponseView) -> RecordState {
        RecordState { response: Some(response), ..self }
    }
}

impl RecordView {
    /// The row without its key.
    pub open spec fn state(self) -> RecordState {
        RecordState { response: self.response, created_at: self.created_at }
    }
}

/// The table as a map from user and key to what is stored for them.
pub type Records = Map<(u128, Seq<char>), RecordState>;

/// How an attempt to claim a key ended.
#[derive(Debug)]
pub enum Claim {
    /// The key was free: the caller now holds it and has to produce the response.
    Started,
    /// Another request holds the key and has not finished: ask again shortly.
    InFlight,
    /// The request was answered before: this is the answer.
    Completed(SavedResponse),
}

/// Why the table refused a write.
#[derive(Debug, Clone, Copy, PartialEq, Eq, Structural)]
pub enum RecordError {
    /// There is no placeholder for this key to complete.
    NotClaimed,
    /// The key has a row already.
    AlreadyRecorded,
}

/// The table of idempotency records.
#[derive(Debug)]
pub struct IdempotencyStore {
    records: Vec<IdempotencyRecord>,
}

impl View for IdempotencyStore {
    type V = Records;

    closed spec fn view(&self) -> Records {
        as_map(self.rows()).map_values(|row: RecordView| row.state())
    }
}

impl IdempotencyStore {
    spec fn rows(&self) -> Seq<RecordView> {
        self.records@.map_values(|r: IdempotencyRecord| r@)
    }

    #[verifier::type_invariant]
    spec fn well_formed(&self) -> bool {
        keys_distinct(self.rows())
    }

    /// A table without rows.
    pub fn new() -> (store: IdempotencyStore)
        ensures
            store@ == Records::empty(),
    {
        let store = IdempotencyStore { records: Vec::new() };
        proof {
            lemma_absent_everywhere(store.rows());
            assert(store@ =~= Records::empty());
        }
        store
    }

    fn append(&mut self, row: IdempotencyRecord)
        requires
            keys_distinct(old(self).rows().push(row@)),
        ensures
            final(self).rows() == old(self).rows().push(row@),
    {
        let mut records: Vec<IdempotencyRecord> = Vec::new();
        core::mem::swap(&mut self.records, &mut records);
        records.push(row);
        assert(records@.map_values(|r: IdempotencyRecord| r@) =~= old(self).rows().push(row@));
        core::mem::swap(&mut self.records, &mut records);
    }

    fn take_out(&mut self, i: usize)
        requires
            i < old(self).rows().len(),
            keys_distinct(old(self).rows().remove(i as int)),
        ensures
            final(self).rows() == old(self).rows().remove(i as int),
    {
        let mut records: Vec<IdempotencyRecord> = Vec::new();
        core::mem::swap(&mut self.records, &mut records);
        records.remove(i);
        assert(records@.map_values(|r: IdempotencyRecord| r@) =~= old(self).rows().remove(
            i as int,
        ));
        core::mem::swap(&mut self.records, &mut records);
    }

    fn put_response(&mut self, i: usize, response: SavedResponse)
        requires
            i < old(self).rows().len(),
        ensures
            final(self).rows() == old(self).rows().update(
                i as int,
                RecordView { response: Some(response@), ..old(self).rows()[i as int] },
            ),
    {
        proof {
            use_type_invariant(&*self);
            lemma_update(
                self.rows(),
                i as int,
                RecordView { response: Some(response@), ..self.rows()[i as int] },
            );
        }
        let mut records: Vec<IdempotencyRecord> = Vec::new();
        core::mem::swap(&mut self.records, &mut records);
        records[i].response = Some(response);
        assert(records@.map_values(|r: IdempotencyRecord| r@) =~= old(self).rows().update(
            i as int,
            RecordView { response: Some(response@), ..old(self).rows()[i as int] },
        ));
        core::mem::swap(&mut self.records, &mut records);
    }

    fn position(&self, user_id: u128, key: &String) -> (found: Option<usize>)
        ensures
            found is Some <==> self@.contains_key((user_id, key@)),
            found is Some ==> found->0 < self.rows().len() && self.rows()[found->0 as int].key() == (
                user_id,
                key@,
            ) && self@[(user_id, key@)] == self.rows()[found->0 as int].state(),
    {
        proof {
            use_type_invariant(self);
        }
        let mut i: usize = 0;
        while i < self.records.len()
            invariant
                i <= self.records.len(),
                keys_distinct(self.rows()),
                forall|k: int| 0 <= k < i ==> (#[trigger] self.rows()[k]).key() != (user_id, key@),
            decreases self.records.len() - i,
        {
            if self.records[i].user_id == user_id && self.records[i].idempotency_key == *key {
                proof {
                    lemma_found(self.rows(), i as int);
                }
                return Some(i);
            }
            i += 1;
        }
        proof {
            lemma_absent(self.rows(), (user_id, key@));
        }
        None
    }

    /// Claims `key` for `user_id`, or reports what became of an earlier claim.
    ///
    /// A free key gets a placeholder and the caller the right to answer the
    /// request. A key that holds a response gives that response back, and a
    /// key that is still only claimed is in flight; in both cases the table
    /// stays as it was.
    pub fn claim(&mut self, user_id: u128, key: &IdempotencyKey, now: u64) -> (claim: Claim)
        ensures
            match old(self)@.get((user_id, key@)) {
                None => claim is Started && final(self)@ == old(self)@.insert(
                    (user_id, key@),
                    RecordState::placeholder(now),
                ),
                Some(state) => final(self)@ == old(self)@ && match state.response {
                    Some(response) => claim is Completed && claim->Completed_0@ == response,
                    None => claim is InFlight,
                },
            },
    {
        proof {
            use_type_invariant(&*self);
        }
        let key_string = key.as_string();
        match self.position(user_id, key_string) {
            Some(i) => match &self.records[i].response {
                Some(response) => Claim::Completed(response.clone()),
                None => Claim::InFlight,
            },
            None => {
                let row = IdempotencyRecord {
                    user_id,
                    idempotency_key: key_string.clone(),
                    response: None,
                    created_at: now,
                };
                proof {
                    lemma_push(self.rows(), row@);
                }
                self.append(row);
                proof {
                    assert(self@ =~= old(self)@.insert(
                        (user_id, key@),
                        RecordState::placeholder(now),
                    ));
                }
                Claim::Started
            },
        }
    }

    /// Writes `response` onto the placeholder of `key` and hands it back.
    ///
    /// A key that is not claimed, or that holds a response already, is
    /// refused and the table stays as it was.
    pub fn complete(&mut self, user_id: u128, key: &IdempotencyKey, response: SavedResponse) -> (result:
        Result<SavedResponse, RecordError>)
        ensures
            match old(self)@.get((user_id, key@)) {
                Some(state) if state.response is None => result is Ok && result->Ok_0@
                    == response@ && final(self)@ == old(self)@.insert(
                    (user_id, key@),
                    state.completed(response@),
                ),
                _ => result == Err::<SavedResponse, _>(RecordError::NotClaimed) && final(self)@
                    == old(self)@,
            },
    {
        proof {
            use_type_invariant(&*self);
        }
        let key_string = key.as_string();
        match self.position(user_id, key_string) {
            Some(i) => {
                if self.records[i].response.is_some() {
                    return Err(RecordError::NotClaimed);
                }
                let stored = response.clone();
                let ghost before = self.rows();
                let ghost row = RecordView { response: Some(response@), ..before[i as int] };
                proof {
                    lemma_update(before, i as int, row);
                }
                self.put_response(i, stored);
                proof {
                    assert(self@ =~= old(self)@.insert(
                        (user_id, key@),
                        old(self)@[(user_id, key@)].completed(response@),
                    ));
                }
                Ok(response)
            },
            None => Err(RecordError::NotClaimed),
        }
    }

    /// Takes the placeholder of `key` away again, as when the work behind it
    /// is rolled back. Says whether there was one; a key that holds a
    /// response keeps it.
    pub fn release(&mut self, user_id: u128, key: &IdempotencyKey) -> (released: bool)
        ensures
            match old(self)@.get((user_id, key@)) {
                Some(state) if state.response is None => released && final(self)@ == old(self)@.remove((user_id, key@)),
                _ => !released && final(self)@ == old(self)@,
            },
    {
        proof {
            use_type_invariant(&*self);
        }
        let key_string = key.as_string();
        match self.position(user_id, key_string) {
            Some(i) => {
                if self.records[i].response.is_some() {
                    return false;
                }
                let ghost before = self.rows();
                proof {
                    lemma_remove(before, i as int);
                }
                self.take_out(i);
                proof {
                    assert(self@ =~= old(self)@.remove((user_id, key@)));
                }
                true
            },
            None => false,
        }
    }

    /// Whether `key` is claimed and not answered yet.
    pub fn is_claimed(&self, user_id: u128, key: &IdempotencyKey) -> (claimed: bool)
        ensures
            claimed == (self@.contains_key((user_id, key@)) && self@[(
                user_id,
                key@,
            )].response is None),
    {
        match self.position(user_id, key.as_string()) {
            Some(i) => self.records[i].response.is_none(),
            None => false,
        }
    }

    /// The number of keys that the table knows.
    pub fn len(&self) -> (n: usize)
        ensures
            self@.dom().finite(),
            n == self@.len(),
    {
        proof {
            use_type_invariant(self);
            lemma_count(self.rows());
            assert(self@.dom() =~= as_map(self.rows()).dom());
        }
        self.records.len()
    }

    /// The response stored for `key`, if there is one.
    pub fn get_saved_response(&self, user_id: u128, key: &IdempotencyKey) -> (saved: Option<
        SavedResponse,
    >)
        ensures
            match self@.get((user_id, key@)) {
                Some(state) => match state.response {
                    Some(response) => saved is Some && saved->0@ == response,
                    None => saved is None,
                },
                None => saved is None,
            },
    {
        match self.position(user_id, key.as_string()) {
            Some(i) => match &self.records[i].response {
                Some(response) => Some(response.clone()),
                None => None,
            },
            None => None,
        }
    }

    /// Stores `response` for a key that the table does not know yet, and
    /// hands it back. A key that it knows is refused and the table stays as
    /// it was.
    pub fn saved_response(
        &mut self,
        user_id: u128,
        key: &IdempotencyKey,
        response: SavedResponse,
        now: u64,
    ) -> (result: Result<SavedResponse, RecordError>)
        ensures
            match old(self)@.get((user_id, key@)) {
                None => result is Ok && result->Ok_0@ == response@ && final(self)@ == old(self)@.insert((user_id, key@), RecordState::placeholder(now).completed(response@)),
                Some(_) => result == Err::<SavedResponse, _>(RecordError::AlreadyRecorded)
                    && final(self)@ == old(self)@,
            },
    {
        proof {
            use_type_invariant(&*self);
        }
        let key_string = key.as_string();
        match self.position(user_id, key_string) {
            Some(_) => Err(RecordError::AlreadyRecorded),
            None => {
                let row = IdempotencyRecord {
                    user_id,
                    idempotency_key: key_string.clone(),
                    response: Some(response.clone()),
                    created_at: now,
                };
                proof {
                    lemma_push(self.rows(), row@);
                }
                self.append(row);
                proof {
                    assert(self@ =~= old(self)@.insert(
                        (user_id, key@),
                        RecordState::placeholder(now).completed(response@),
                    ));
                }
                Ok(response)
            },
        }
    }
}

proof fn lemma_absent_everywhere(rows: Seq<RecordView>)
    requires
        rows.len() == 0,
    ensures
        forall|key: (u128, Seq<char>)| !as_map(rows).contains_key(key),
{
    assert forall|key: (u128, Seq<char>)| !as_map(rows).contains_key(key) by {
        lemma_absent(rows, key);
    }
}

} // verus!
