//! The delivery queue: one task per issue and subscriber, claimed by one
//! worker at a time and removed once its delivery was decided.

use crate::rows::has_key;
use crate::rows::position_of;
use crate::rows::keys_distinct;
use crate::rows::lemma_concat_distinct;
use crate::rows::lemma_push;
use crate::rows::lemma_remove;
use crate::rows::lemma_update;
use crate::rows::Keyed;
use vstd::prelude::*;

verus! {

/// A task of the queue: deliver this issue to this address.
#[derive(Debug, PartialEq, Eq)]
pub struct DeliveryTask {
    pub issue_id: u128,
    pub subscriber_email: String,
}

#[derive(Debug)]
struct QueueRow {
    issue_id: u128,
    subscriber_email: String,
    locked: bool,
}

/// What a row of the queue holds: the task and whether a worker has it.
pub struct TaskView {
    pub issue_id: u128,
    pub subscriber_email: Seq<char>,
    pub locked: bool,
}

impl Keyed for TaskView {
    type Key = (u128, Seq<char>);

    open spec fn key(self) -> (u128, Seq<char>) {
        (self.issue_id, self.subscriber_email)
    }
}

impl TaskView {
    /// A task that no worker has.
    pub open spec fn waiting(issue_id: u128, subscriber_email: Seq<char>) -> TaskView {
        TaskView { issue_id, subscriber_email, locked: false }
    }

    /// The same row once a worker holds it.
    pub open spec fn claimed(self) -> TaskView {
        TaskView { locked: true, ..self }
    }

    /// The same row once its worker has let go of it.
    pub open spec fn released(self) -> TaskView {
        TaskView { locked: false, ..self }
    }
}

impl View for QueueRow {
    type V = TaskView;

    closed spec fn view(&self) -> TaskView {
        TaskView {
            issue_id: self.issue_id,
            subscriber_email: self.subscriber_email@,
            locked: self.locked,
        }
    }
}

/// The characters of each string, in order.
pub open spec fn strings_view(strings: Seq<String>) -> Seq<Seq<char>> {
    strings.map_values(|s: String| s@)
}

/// One waiting task of `issue_id` for each of `emails`, in order.
pub open spec fn tasks_for(issue_id: u128, emails: Seq<Seq<char>>) -> Seq<TaskView> {
    emails.map_values(|email: Seq<char>| TaskView::waiting(issue_id, email))
}

/// Whether `i` is the first task of `queue` that no worker has.
pub open spec fn is_first_unlocked(queue: Seq<TaskView>, i: int) -> bool {
    &&& 0 <= i < queue.len()
    &&& !queue[i].locked
    &&& forall|j: int| 0 <= j < i ==> (#[trigger] queue[j]).locked
}

/// Where the first task stands that no worker has; the length of the
/// queue if there is none.
pub open spec fn first_unlocked(queue: Seq<TaskView>) -> int {
    if exists|i: int| is_first_unlocked(queue, i) {
        choose|i: int| is_first_unlocked(queue, i)
    } else {
        queue.len() as int
    }
}

/// The first task that no worker has is found by what is said of it: it is
/// free and all before it are taken.
pub proof fn lemma_first_unlocked(queue: Seq<TaskView>, i: int)
    requires
        0 <= i <= queue.len(),
        forall|j: int| 0 <= j < i ==> (#[trigger] queue[j]).locked,
        i < queue.len() ==> !queue[i].locked,
    ensures
        first_unlocked(queue) == i,
{
    if i < queue.len() {
        assert(is_first_unlocked(queue, i));
        let k = first_unlocked(queue);
        assert(is_first_unlocked(queue, k));
        if k < i {
            assert(queue[k].locked);
        } else if i < k {
            assert(queue[i].locked);
        }
    } else {
        if exists|k: int| is_first_unlocked(queue, k) {
            let k = choose|k: int| is_first_unlocked(queue, k);
            assert(queue[k].locked);
        }
    }
}

/// The task that the next claim hands out, if any.
pub open spec fn next_task(queue: Seq<TaskView>) -> Option<(u128, Seq<char>)> {
    if first_unlocked(queue) < queue.len() {
        Some(queue[first_unlocked(queue)].key())
    } else {
        None
    }
}

/// The queue after a claim: the first task that no worker had is taken.
pub open spec fn after_claim(queue: Seq<TaskView>) -> Seq<TaskView> {
    let i = first_unlocked(queue);
    if i < queue.len() {
        queue.update(i, queue[i].claimed())
    } else {
        queue
    }
}

/// Whether a worker has the task `key` of `queue`.
pub open spec fn is_claimed(queue: Seq<TaskView>, key: (u128, Seq<char>)) -> bool {
    has_key(queue, key) && queue[position_of(queue, key)].locked
}

/// The queue after the claimed task `key` was retired: the task is gone.
pub open spec fn after_retire(queue: Seq<TaskView>, key: (u128, Seq<char>)) -> Seq<TaskView> {
    if is_claimed(queue, key) {
        queue.remove(position_of(queue, key))
    } else {
        queue
    }
}

/// The queue after the claimed task `key` was given back: the task waits
/// again.
pub open spec fn after_release(queue: Seq<TaskView>, key: (u128, Seq<char>)) -> Seq<TaskView> {
    if is_claimed(queue, key) {
        queue.update(position_of(queue, key), queue[position_of(queue, key)].released())
    } else {
        queue
    }
}

/// A task in the hands of a worker. It is handed out by
/// [`DeliveryQueue::claim_one`] and given back to
/// [`DeliveryQueue::retire`] or [`DeliveryQueue::release`].
#[derive(Debug)]
pub struct ClaimedTask {
    issue_id: u128,
    subscriber_email: String,
}

impl View for ClaimedTask {
    type V = (u128, Seq<char>);

    closed spec fn view(&self) -> (u128, Seq<char>) {
        (self.issue_id, self.subscriber_email@)
    }
}

impl ClaimedTask {
    /// The issue to deliver.
    pub fn issue_id(&self) -> (id: u128)
        ensures
            id == self@.0,
    {
        self.issue_id
    }

    /// The address to deliver to, as it is stored.
    pub fn subscriber_email(&self) -> (email: &String)
        ensures
            email@ == self@.1,
    {
        &self.subscriber_email
    }
}

/// A task for this issue and address is in the queue already.
#[derive(Debug, Clone, Copy, PartialEq, Eq, Structural)]
pub struct DuplicateTask;

/// The delivery queue.
#[derive(Debug)]
pub struct DeliveryQueue {
    tasks: Vec<QueueRow>,
}

impl View for DeliveryQueue {
    type V = Seq<TaskView>;

    closed spec fn view(&self) -> Seq<TaskView> {
        rows_view(self.tasks@)
    }
}

spec fn rows_view(rows: Seq<QueueRow>) -> Seq<TaskView> {
    rows.map_values(|row: QueueRow| row@)
}

fn find(tasks: &Vec<QueueRow>, issue_id: u128, email: &String) -> (found: Option<usize>)
    ensures
        found is Some ==> found->0 < tasks.len() && rows_view(tasks@)[found->0 as int].key() == (
            issue_id,
            email@,
        ),
        found is None ==> forall|i: int|
            0 <= i < tasks.len() ==> (#[trigger] rows_view(tasks@)[i]).key() != (issue_id, email@),
{
    let mut i: usize = 0;
    while i < tasks.len()
        invariant
            i <= tasks.len(),
            forall|k: int|
                0 <= k < i ==> (#[trigger] rows_view(tasks@)[k]).key() != (issue_id, email@),
        decreases tasks.len() - i,
    {
        if tasks[i].issue_id == issue_id && tasks[i].subscriber_email == *email {
            return Some(i);
        }
        i += 1;
    }
    None
}

impl DeliveryQueue {
    #[verifier::type_invariant]
    spec fn well_formed(&self) -> bool {
        keys_distinct(self@)
    }

    /// An empty queue.
    pub fn new() -> (queue: DeliveryQueue)
        ensures
            queue@ == Seq::<TaskView>::empty(),
    {
        let queue = DeliveryQueue { tasks: Vec::new() };
        assert(queue@ =~= Seq::<TaskView>::empty());
        queue
    }

    /// The number of tasks, claimed ones included. No two of them are for
    /// the same issue and address.
    pub fn len(&self) -> (n: usize)
        ensures
            n == self@.len(),
            keys_distinct(self@),
    {
        proof {
            use_type_invariant(self);
        }
        self.tasks.len()
    }

    /// Whether a task for `issue_id` and `email` is in the queue.
    pub fn contains(&self, issue_id: u128, email: &String) -> (found: bool)
        ensures
            found == has_key(self@, (issue_id, email@)),
    {
        match find(&self.tasks, issue_id, email) {
            Some(i) => {
                assert(crate::rows::is_at(self@, (issue_id, email@), i as int));
                true
            },
            None => {
                proof {
                    crate::rows::lemma_absent(self@, (issue_id, email@));
                }
                false
            },
        }
    }

    /// Appends one waiting task of `issue_id` for each of `emails`, in
    /// their order, or none at all: where two tasks of the queue would then
    /// be for the same issue and address, the queue stays as it was.
    pub fn enqueue_all(&mut self, issue_id: u128, emails: &Vec<String>) -> (result: Result<
        (),
        DuplicateTask,
    >)
        ensures
            keys_distinct(final(self)@),
            keys_distinct(old(self)@ + tasks_for(issue_id, strings_view(emails@))) ==> result is Ok
                && final(self)@ == old(self)@ + tasks_for(issue_id, strings_view(emails@)),
            !keys_distinct(old(self)@ + tasks_for(issue_id, strings_view(emails@))) ==> result
                is Err && final(self)@ == old(self)@,
    {
        proof {
            use_type_invariant(&*self);
        }
        let ghost before = self@;
        let ghost wanted = tasks_for(issue_id, strings_view(emails@));
        let mut tasks: Vec<QueueRow> = Vec::new();
        core::mem::swap(&mut self.tasks, &mut tasks);
        let start = tasks.len();
        let mut j: usize = 0;
        let mut clash = false;
        while j < emails.len() && !clash
            invariant
                j <= emails.len(),
                start == before.len(),
                wanted == tasks_for(issue_id, strings_view(emails@)),
                wanted.len() == emails.len(),
                keys_distinct(rows_view(tasks@)),
                !clash ==> rows_view(tasks@) == before + wanted.subrange(0, j as int),
                clash ==> !keys_distinct(before + wanted),
                clash ==> tasks@.len() >= start && rows_view(tasks@).subrange(0, start as int)
                    == before,
                self.tasks@.len() == 0,
            decreases emails.len() - j + (if clash { 0int } else { 1int }),
        {
            match find(&tasks, issue_id, &emails[j]) {
                Some(k) => {
                    proof {
                        let all = before + wanted;
                        let now = rows_view(tasks@);
                        let part = wanted.subrange(0, j as int);
                        assert(now == before + part);
                        assert(now.len() == start + j);
                        assert(all.len() == start + emails.len());
                        if k < start {
                            assert(now[k as int] == before[k as int]);
                        } else {
                            assert(now[k as int] == part[k - start]);
                        }
                        assert(now[k as int] == all[k as int]);
                        assert(wanted[j as int] == TaskView::waiting(issue_id, emails@[j as int]@));
                        assert(all[start + j] == wanted[j as int]);
                        assert(all[k as int].key() == all[start + j].key());
                        assert(now.subrange(0, start as int) =~= before);
                    }
                    clash = true;
                },
                None => {
                    let row = QueueRow {
                        issue_id,
                        subscriber_email: emails[j].clone(),
                        locked: false,
                    };
                    proof {
                        crate::rows::lemma_absent(rows_view(tasks@), row@.key());
                        crate::rows::lemma_absent_from_map(rows_view(tasks@), row@.key());
                        lemma_push(rows_view(tasks@), row@);
                        assert(rows_view(tasks@.push(row)) =~= rows_view(tasks@).push(row@));
                        assert(wanted.subrange(0, j + 1) =~= wanted.subrange(0, j as int).push(
                            wanted[j as int],
                        ));
                        assert(before + wanted.subrange(0, j + 1) =~= (before + wanted.subrange(
                            0,
                            j as int,
                        )).push(row@));
                    }
                    tasks.push(row);
                    j += 1;
                },
            }
        }
        if clash {
            tasks.truncate(start);
            assert(rows_view(tasks@) =~= before);
            core::mem::swap(&mut self.tasks, &mut tasks);
            Err(DuplicateTask)
        } else {
            assert(wanted.subrange(0, j as int) =~= wanted);
            core::mem::swap(&mut self.tasks, &mut tasks);
            Ok(())
        }
    }

    /// Puts all tasks of `other` behind those of this queue, in their
    /// order, or none at all: where two tasks would then be for the same
    /// issue and address, the queue stays as it was.
    pub fn absorb(&mut self, other: DeliveryQueue) -> (result: Result<(), DuplicateTask>)
        ensures
            keys_distinct(final(self)@),
            keys_distinct(old(self)@ + other@) ==> result is Ok && final(self)@ == old(self)@
                + other@,
            !keys_distinct(old(self)@ + other@) ==> result is Err && final(self)@ == old(self)@,
    {
        proof {
            use_type_invariant(&*self);
            use_type_invariant(&other);
        }
        let ghost mine = self@;
        let ghost theirs = other@;
        let DeliveryQueue { tasks: mut more } = other;
        let mut j: usize = 0;
        while j < more.len()
            invariant
                j <= more.len(),
                *self == *old(self),
                mine == self@,
                theirs == rows_view(more@),
                theirs == other@,
                keys_distinct(mine),
                keys_distinct(theirs),
                forall|i: int, k: int|
                    0 <= i < mine.len() && 0 <= k < j ==> (#[trigger] mine[i]).key() != (
                    #[trigger] theirs[k]).key(),
            decreases more.len() - j,
        {
            match find(&self.tasks, more[j].issue_id, &more[j].subscriber_email) {
                Some(k) => {
                    proof {
                        let all = mine + theirs;
                        assert(all[k as int] == mine[k as int]);
                        assert(all[mine.len() + j] == theirs[j as int]);
                        assert(all[k as int].key() == all[mine.len() + j].key());
                    }
                    return Err(DuplicateTask);
                },
                None => {},
            }
            j += 1;
        }
        proof {
            lemma_concat_distinct(mine, theirs);
        }
        let mut tasks: Vec<QueueRow> = Vec::new();
        core::mem::swap(&mut self.tasks, &mut tasks);
        tasks.append(&mut more);
        assert(rows_view(tasks@) =~= mine + theirs);
        core::mem::swap(&mut self.tasks, &mut tasks);
        Ok(())
    }

    /// Hands out the first task that no worker has, and marks it as taken.
    /// Tasks that a worker has are passed over; where every task is taken,
    /// or the queue is empty, nothing is handed out and nothing changes.
    pub fn claim_one(&mut self) -> (claimed: Option<ClaimedTask>)
        ensures
            keys_distinct(final(self)@),
            final(self)@ == after_claim(old(self)@),
            match next_task(old(self)@) {
                Some(key) => claimed is Some && claimed->0@ == key,
                None => claimed is None,
            },
            ({
                let i = first_unlocked(old(self)@);
                &&& 0 <= i <= old(self)@.len()
                &&& forall|j: int| 0 <= j < i ==> (#[trigger] old(self)@[j]).locked
                &&& i < old(self)@.len() ==> !old(self)@[i].locked
                &&& if i < old(self)@.len() {
                    &&& claimed is Some
                    &&& claimed->0@ == old(self)@[i].key()
                    &&& final(self)@ == old(self)@.update(i, old(self)@[i].claimed())
                } else {
                    &&& claimed is None
                    &&& final(self)@ == old(self)@
                }
            }),
    {
        proof {
            use_type_invariant(&*self);
        }
        let ghost before = self@;
        let mut tasks: Vec<QueueRow> = Vec::new();
        core::mem::swap(&mut self.tasks, &mut tasks);
        let mut i: usize = 0;
        while i < tasks.len() && tasks[i].locked
            invariant
                i <= tasks.len(),
                rows_view(tasks@) == before,
                forall|j: int| 0 <= j < i ==> (#[trigger] before[j]).locked,
            decreases tasks.len() - i,
        {
            i += 1;
        }
        proof {
            lemma_first_unlocked(before, i as int);
        }
        if i < tasks.len() {
            let claimed = ClaimedTask {
                issue_id: tasks[i].issue_id,
                subscriber_email: tasks[i].subscriber_email.clone(),
            };
            tasks[i].locked = true;
            proof {
                lemma_update(before, i as int, before[i as int].claimed());
                assert(rows_view(tasks@) =~= before.update(i as int, before[i as int].claimed()));
            }
            core::mem::swap(&mut self.tasks, &mut tasks);
            Some(claimed)
        } else {
            core::mem::swap(&mut self.tasks, &mut tasks);
            None
        }
    }

    /// Removes the task that `task` stands for, once its delivery was
    /// decided. Says whether it did: a task that is not in the queue, or
    /// that no worker has, changes nothing.
    pub fn retire(&mut self, task: ClaimedTask) -> (retired: bool)
        ensures
            keys_distinct(final(self)@),
            retired == is_claimed(old(self)@, task@),
            final(self)@ == after_retire(old(self)@, task@),
            forall|i: int|
                0 <= i < old(self)@.len() && (#[trigger] old(self)@[i]).key() == task@ ==> if old(self)@[i].locked {
                    retired && final(self)@ == old(self)@.remove(i)
                } else {
                    !retired && final(self)@ == old(self)@
                },
            !has_key(old(self)@, task@) ==> !retired && final(self)@ == old(self)@,
    {
        proof {
            use_type_invariant(&*self);
        }
        let ghost before = self@;
        match find(&self.tasks, task.issue_id, &task.subscriber_email) {
            Some(k) => {
                proof {
                    crate::rows::lemma_found(before, k as int);
                    assert forall|i: int|
                        0 <= i < before.len() && (#[trigger] before[i]).key() == task@ implies i
                        == k by {
                        crate::rows::lemma_found(before, i);
                    }
                }
                if self.tasks[k].locked {
                    proof {
                        lemma_remove(before, k as int);
                    }
                    let mut tasks: Vec<QueueRow> = Vec::new();
                    core::mem::swap(&mut self.tasks, &mut tasks);
                    tasks.remove(k);
                    assert(rows_view(tasks@) =~= before.remove(k as int));
                    core::mem::swap(&mut self.tasks, &mut tasks);
                    true
                } else {
                    false
                }
            },
            None => {
                proof {
                    crate::rows::lemma_absent(before, task@);
                }
                false
            },
        }
    }

    /// Gives the task that `task` stands for back to the queue, where the
    /// next worker can claim it: what remains of a delivery that was
    /// abandoned before it was decided. Says whether it did: a task that is
    /// not in the queue, or that no worker has, changes nothing.
    pub fn release(&mut self, task: ClaimedTask) -> (released: bool)
        ensures
            keys_distinct(final(self)@),
            released == is_claimed(old(self)@, task@),
            final(self)@ == after_release(old(self)@, task@),
            forall|i: int|
                0 <= i < old(self)@.len() && (#[trigger] old(self)@[i]).key() == task@ ==> if old(self)@[i].locked {
                    released && final(self)@ == old(self)@.update(i, old(self)@[i].released())
                } else {
                    !released && final(self)@ == old(self)@
                },
            !has_key(old(self)@, task@) ==> !released && final(self)@ == old(self)@,
    {
        proof {
            use_type_invariant(&*self);
        }
        let ghost before = self@;
        match find(&self.tasks, task.issue_id, &task.subscriber_email) {
            Some(k) => {
                proof {
                    crate::rows::lemma_found(before, k as int);
                    assert forall|i: int|
                        0 <= i < before.len() && (#[trigger] before[i]).key() == task@ implies i
                        == k by {
                        crate::rows::lemma_found(before, i);
                    }
                }
                if self.tasks[k].locked {
                    proof {
                        lemma_update(before, k as int, before[k as int].released());
                    }
                    let mut tasks: Vec<QueueRow> = Vec::new();
                    core::mem::swap(&mut self.tasks, &mut tasks);
                    tasks[k].locked = false;
                    assert(rows_view(tasks@) =~= before.update(
                        k as int,
                        before[k as int].released(),
                    ));
                    core::mem::swap(&mut self.tasks, &mut tasks);
                    true
                } else {
                    false
                }
            },
            None => {
                proof {
                    crate::rows::lemma_absent(before, task@);
                }
                false
            },
        }
    }
}

} // verus!
