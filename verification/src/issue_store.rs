//! The table of newsletter issues. An issue is stored once and never
//! changed or removed.

use crate::rows::as_map;
use crate::rows::keys_distinct;
use crate::rows::lemma_absent;
use crate::rows::lemma_absent_from_map;
use crate::rows::lemma_concat;
use crate::rows::lemma_concat_distinct;
use crate::rows::lemma_count;
use crate::rows::lemma_found;
use crate::rows::lemma_push;
use crate::rows::Keyed;
use uuid::Uuid;
use vstd::prelude::*;

verus! {

/// A newsletter issue as it is stored.
#[derive(Debug)]
pub struct Issue {
    pub issue_id: u128,
    pub title: String,
    pub html_content: String,
    pub text_content: String,
    pub published_at: u64,
}

/// What an [`Issue`] holds.
pub struct IssueRow {
    pub issue_id: u128,
    pub title: Seq<char>,
    pub html_content: Seq<char>,
    pub text_content: Seq<char>,
    pub published_at: u64,
}

impl View for Issue {
    type V = IssueRow;

    open spec fn view(&self) -> IssueRow {
        IssueRow {
            issue_id: self.issue_id,
            title: self.title@,
            html_content: self.html_content@,
            text_content: self.text_content@,
            published_at: self.published_at,
        }
    }
}

impl Keyed for IssueRow {
    type Key = u128;

    open spec fn key(self) -> u128 {
        self.issue_id
    }
}

/// What is stored under the id of an issue.
pub struct IssueView {
    pub title: Seq<char>,
    pub html_content: Seq<char>,
    pub text_content: Seq<char>,
    pub published_at: u64,
}

impl IssueRow {
    /// The row without its id.
    pub open spec fn content(self) -> IssueView {
        IssueView {
            title: self.title,
            html_content: self.html_content,
            text_content: self.text_content,
            published_at: self.published_at,
        }
    }
}

/// Calls `uuid::Uuid::new_v4` and hands the new id out as the number that
/// `Uuid::as_u128` gives for it. The id is random: nothing is said of it.
#[verifier::external_body]
pub(crate) fn new_issue_id() -> u128 {
    Uuid::new_v4().as_u128()
}

/// The table as a map from the id of an issue to what is stored for it.
pub type Issues = Map<u128, IssueView>;

/// What a delivery needs of an issue.
#[derive(Debug, PartialEq, Eq)]
pub struct NewsletterIssueRecord {
    pub title: String,
    pub text_content: String,
    pub html_content: String,
}

/// The id is taken by another issue.
#[derive(Debug, Clone, Copy, PartialEq, Eq, Structural)]
pub struct DuplicateIssue(pub u128);

/// The table of issues.
#[derive(Debug)]
pub struct IssueStore {
    issues: Vec<Issue>,
}

impl View for IssueStore {
    type V = Issues;

    closed spec fn view(&self) -> Issues {
        as_map(self.rows()).map_values(|row: IssueRow| row.content())
    }
}

impl IssueStore {
    spec fn rows(&self) -> Seq<IssueRow> {
        self.issues@.map_values(|issue: Issue| issue@)
    }

    #[verifier::type_invariant]
    spec fn well_formed(&self) -> bool {
        keys_distinct(self.rows())
    }

    /// A table without issues.
    pub fn new() -> (store: IssueStore)
        ensures
            store@ == Issues::empty(),
    {
        let store = IssueStore { issues: Vec::new() };
        proof {
            assert forall|id: u128| !as_map(store.rows()).contains_key(id) by {
                lemma_absent(store.rows(), id);
            }
            assert(store@ =~= Issues::empty());
        }
        store
    }

    /// The number of issues.
    pub fn len(&self) -> (n: usize)
        ensures
            n == self@.len(),
            self@.dom().finite(),
    {
        proof {
            use_type_invariant(self);
            lemma_count(self.rows());
            assert(self@.dom() =~= as_map(self.rows()).dom());
        }
        self.issues.len()
    }

    fn position(&self, issue_id: u128) -> (found: Option<usize>)
        ensures
            found is Some <==> self@.contains_key(issue_id),
            found is Some ==> found->0 < self.rows().len() && self.rows()[found->0 as int].issue_id
                == issue_id && self@[issue_id] == self.rows()[found->0 as int].content(),
    {
        proof {
            use_type_invariant(self);
        }
        let mut i: usize = 0;
        while i < self.issues.len()
            invariant
                i <= self.issues.len(),
                keys_distinct(self.rows()),
                forall|k: int| 0 <= k < i ==> (#[trigger] self.rows()[k]).key() != issue_id,
            decreases self.issues.len() - i,
        {
            if self.issues[i].issue_id == issue_id {
                proof {
                    lemma_found(self.rows(), i as int);
                }
                return Some(i);
            }
            i += 1;
        }
        proof {
            lemma_absent(self.rows(), issue_id);
        }
        None
    }

    /// Whether an issue is stored under `issue_id`.
    pub fn contains(&self, issue_id: u128) -> (found: bool)
        ensures
            found == self@.contains_key(issue_id),
    {
        self.position(issue_id).is_some()
    }

    /// Stores `issue` under its id. An id that is taken is refused and the
    /// table stays as it was.
    pub fn insert(&mut self, issue: Issue) -> (result: Result<(), DuplicateIssue>)
        ensures
            old(self)@.contains_key(issue.issue_id) ==> result == Err::<(), _>(
                DuplicateIssue(issue.issue_id),
            ) && final(self)@ == old(self)@,
            !old(self)@.contains_key(issue.issue_id) ==> result is Ok && final(self)@ == old(self)@.insert(issue.issue_id, issue@.content()),
    {
        proof {
            use_type_invariant(&*self);
        }
        if self.position(issue.issue_id).is_some() {
            return Err(DuplicateIssue(issue.issue_id));
        }
        proof {
            lemma_push(self.rows(), issue@);
        }
        let mut issues: Vec<Issue> = Vec::new();
        core::mem::swap(&mut self.issues, &mut issues);
        issues.push(issue);
        assert(issues@.map_values(|i: Issue| i@) =~= old(self).rows().push(issue@));
        core::mem::swap(&mut self.issues, &mut issues);
        proof {
            assert(self@ =~= old(self)@.insert(issue.issue_id, issue@.content()));
        }
        Ok(())
    }

    /// Takes over all issues of `other`, or none: where an id of `other` is
    /// taken here, that id is reported and the table stays as it was.
    pub fn absorb(&mut self, other: IssueStore) -> (result: Result<(), DuplicateIssue>)
        ensures
            result is Ok <==> old(self)@.dom().disjoint(other@.dom()),
            result is Ok ==> final(self)@ == old(self)@.union_prefer_right(other@),
            result is Err ==> final(self)@ == old(self)@ && old(self)@.contains_key(
                result->Err_0.0,
            ) && other@.contains_key(result->Err_0.0),
    {
        proof {
            use_type_invariant(&*self);
            use_type_invariant(&other);
        }
        let ghost mine = self.rows();
        let ghost theirs = other.rows();
        let IssueStore { issues: mut more } = other;
        let mut j: usize = 0;
        while j < more.len()
            invariant
                j <= more.len(),
                *self == *old(self),
                mine == self.rows(),
                theirs == more@.map_values(|issue: Issue| issue@),
                keys_distinct(mine),
                keys_distinct(theirs),
                other@ == as_map(theirs).map_values(|row: IssueRow| row.content()),
                forall|k: int| 0 <= k < j ==> !self@.contains_key((#[trigger] theirs[k]).issue_id),
            decreases more.len() - j,
        {
            let issue_id = more[j].issue_id;
            proof {
                lemma_found(theirs, j as int);
            }
            if self.position(issue_id).is_some() {
                return Err(DuplicateIssue(issue_id));
            }
            j += 1;
        }
        proof {
            assert forall|i: int, k: int| 0 <= i < mine.len() && 0 <= k < theirs.len() implies (
            #[trigger] mine[i]).key() != (#[trigger] theirs[k]).key() by {
                assert(!self@.contains_key(theirs[k].issue_id));
                lemma_absent_from_map(mine, theirs[k].key());
            }
            lemma_concat_distinct(mine, theirs);
            lemma_concat(mine, theirs);
        }
        let mut issues: Vec<Issue> = Vec::new();
        core::mem::swap(&mut self.issues, &mut issues);
        issues.append(&mut more);
        assert(issues@.map_values(|i: Issue| i@) =~= mine + theirs);
        core::mem::swap(&mut self.issues, &mut issues);
        proof {
            assert(self@ =~= old(self)@.union_prefer_right(other@));
        }
        Ok(())
    }

    /// What a delivery needs of the issue stored under `issue_id`.
    pub fn get(&self, issue_id: u128) -> (found: Option<NewsletterIssueRecord>)
        ensures
            found is Some <==> self@.contains_key(issue_id),
            found is Some ==> {
                &&& found->0.title@ == self@[issue_id].title
                &&& found->0.text_content@ == self@[issue_id].text_content
                &&& found->0.html_content@ == self@[issue_id].html_content
            },
    {
        match self.position(issue_id) {
            Some(i) => Some(
                NewsletterIssueRecord {
                    title: self.issues[i].title.clone(),
                    text_content: self.issues[i].text_content.clone(),
                    html_content: self.issues[i].html_content.clone(),
                },
            ),
            None => None,
        }
    }
}

} // verus!
