//! The task store: an ordered collection of tasks with index-addressed
//! mutation. Positions are not stable identifiers: removing a task shifts
//! every later task down by one.

use vstd::prelude::*;
use crate::datetime::Timestamp;
use crate::datetime::timestamp_wf_exec;

verus! {

/// One to-do entry: completion flag, free-text description, optional due
/// date and optional completion timestamp (both read as UTC).
#[derive(Debug, Clone)]
pub struct Task {
    pub completed: bool,
    pub data: String,
    pub due_date: Option<Timestamp>,
    pub completed_date: Option<Timestamp>,
}

/// The mathematical value of a [`Task`]: the description as a character
/// sequence, the flags and timestamps as they stand.
#[verifier::ext_equal]
pub struct TaskModel {
    pub completed: bool,
    pub data: Seq<char>,
    pub due: Option<Timestamp>,
    pub done: Option<Timestamp>,
}

impl View for Task {
    type V = TaskModel;

    open spec fn view(&self) -> TaskModel {
        TaskModel {
            completed: self.completed,
            data: self.data@,
            due: self.due_date,
            done: self.completed_date,
        }
    }
}

impl TaskModel {
    /// Timestamps, where present, are well-formed calendar instants.
    pub open spec fn wf(self) -> bool {
        &&& (self.due is Some ==> self.due->Some_0.wf())
        &&& (self.done is Some ==> self.done->Some_0.wf())
    }
}

impl Task {
    /// A fresh task: given flag and description, no timestamps.
    pub fn new(c: bool, d: String) -> (r: Task)
        ensures
            r@ == (TaskModel { completed: c, data: d@, due: None, done: None }),
    {
        Task { completed: c, data: d, due_date: None, completed_date: None }
    }
}

/// The ordered task collection; insertion order is display order and
/// on-disk order.
#[derive(Debug, Clone)]
pub struct TaskList {
    pub tasks: Vec<Task>,
}

impl View for TaskList {
    type V = Seq<TaskModel>;

    open spec fn view(&self) -> Seq<TaskModel> {
        self.tasks@.map_values(|t: Task| t@)
    }
}

/// `s` with the completion flag at `i` flipped and all else unchanged.
pub open spec fn toggle_at(s: Seq<TaskModel>, i: int) -> Seq<TaskModel> {
    s.update(i, TaskModel { completed: !s[i].completed, ..s[i] })
}

/// Flipping the same flag twice restores the original store.
pub proof fn lemma_toggle_self_inverse(s: Seq<TaskModel>, i: int)
    requires
        0 <= i < s.len(),
    ensures
        toggle_at(toggle_at(s, i), i) == s,
{
    assert(toggle_at(toggle_at(s, i), i) =~~= s);
}

impl TaskList {
    /// Every timestamp held by the store is well formed.
    pub open spec fn wf(self) -> bool {
        forall|i: int| 0 <= i < self@.len() ==> #[trigger] self@[i].wf()
    }

    /// Executable check of [`TaskList::wf`], for callers outside the
    /// verified world that must establish it before serializing.
    pub fn wf_exec(&self) -> (r: bool)
        ensures
            r == self.wf(),
    {
        let n = self.tasks.len();
        let mut i: usize = 0;
        while i < n
            invariant
                i <= n,
                n == self.tasks@.len(),
                forall|j: int| 0 <= j < i ==> #[trigger] self@[j].wf(),
            decreases n - i,
        {
            let t = &self.tasks[i];
            let due_ok = match &t.due_date {
                Some(d) => timestamp_wf_exec(d),
                None => true,
            };
            let done_ok = match &t.completed_date {
                Some(d) => timestamp_wf_exec(d),
                None => true,
            };
            if !(due_ok && done_ok) {
                proof {
                    assert(!self@[i as int].wf());
                }
                return false;
            }
            proof {
                assert(self@[i as int].wf());
            }
            i = i + 1;
        }
        true
    }

    /// Appends `mytask` and returns its zero-based position. The error
    /// branch guards the invariant that an append grows the list; it cannot
    /// be taken.
    pub fn add_task(&mut self, mytask: Task) -> (r: Result<usize, String>)
        ensures
            final(self)@ == old(self)@.push(mytask@),
            r == Ok::<usize, String>(old(self).tasks.len()),
    {
        let veclen = self.tasks.len();
        self.tasks.push(mytask);
        proof {
            assert(self@ =~= old(self)@.push(self.tasks@[veclen as int]@));
        }
        if veclen >= self.tasks.len() {
            return Err(String::from_str("Push failed."));
        }
        Ok(self.tasks.len() - 1)
    }

    /// Removes the task at zero-based `index`; every later task shifts down
    /// by one. Fails, leaving the store unchanged, exactly when `index` is
    /// out of range.
    pub fn delete_task(&mut self, index: usize) -> (r: Result<(), String>)
        ensures
            index < old(self)@.len() ==> {
                &&& r is Ok
                &&& final(self)@ == old(self)@.remove(index as int)
                &&& final(self)@.len() == old(self)@.len() - 1
                &&& forall|j: int|
                    index < j < old(self)@.len() ==> final(self)@[j - 1] == #[trigger] old(self)@[j]
            },
            index >= old(self)@.len() ==> {
                &&& r is Err
                &&& r->Err_0@ == "Invalid index."@
                &&& final(self)@ == old(self)@
            },
    {
        if index < self.tasks.len() {
            self.tasks.remove(index);
            proof {
                assert(self@ =~= old(self)@.remove(index as int));
            }
            return Ok(());
        }
        Err(String::from_str("Invalid index."))
    }

    /// Flips the completion flag at zero-based `index`, touching nothing
    /// else (in particular not the completion timestamp). Fails, leaving the
    /// store unchanged, exactly when `index` is out of range.
    pub fn toggle_completed_task(&mut self, index: usize) -> (r: Result<(), String>)
        ensures
            index < old(self)@.len() ==> {
                &&& r is Ok
                &&& final(self)@ == toggle_at(old(self)@, index as int)
            },
            index >= old(self)@.len() ==> {
                &&& r is Err
                &&& r->Err_0@ == "Invalid index."@
                &&& final(self)@ == old(self)@
            },
    {
        if index < self.tasks.len() {
            let c = self.tasks[index].completed;
            self.tasks[index].completed = !c;
            proof {
                assert(self@ =~= toggle_at(old(self)@, index as int));
            }
            return Ok(());
        }
        Err(String::from_str("Invalid index."))
    }
}

} // verus!
