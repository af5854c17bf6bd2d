//! The worker's task queue: a time-ordered collection of due-at tasks.

use vstd::prelude::*;

verus! {

/// The kind of work a task asks for.
#[derive(Debug, Clone, Copy, PartialEq, Eq, Structural)]
pub enum TaskType {
    /// (Re)send a message.
    Resend,
}

/// A unit of work the worker has to do at (or after) a point in time.
///
/// Time is measured in whole seconds on the embedder's monotonic clock.
#[derive(Debug)]
pub struct Task {
    pub tasktype: TaskType,
    pub time: u64,
    pub message_id: String,
}

/// The mathematical model of a `Task`.
pub struct TaskModel {
    pub tasktype: TaskType,
    pub time: u64,
    pub message_id: Seq<char>,
}

impl View for Task {
    type V = TaskModel;

    open spec fn view(&self) -> TaskModel {
        TaskModel { tasktype: self.tasktype, time: self.time, message_id: self.message_id@ }
    }
}

impl Clone for Task {
    fn clone(&self) -> (r: Self)
        ensures
            r@ == self@,
    {
        Task {
            tasktype: self.tasktype,
            time: self.time,
            message_id: self.message_id.clone(),
        }
    }
}

/// Task identity is structural equality across all fields.
pub open spec fn task_matches(a: TaskModel, b: TaskModel) -> bool {
    a.tasktype == b.tasktype && a.time == b.time && a.message_id == b.message_id
}

/// Whether task `a` equals task `b`, field for field.
pub fn task_eq(a: &Task, b: &Task) -> (r: bool)
    ensures
        r == task_matches(a@, b@),
{
    let types_match: bool = match (a.tasktype, b.tasktype) {
        (TaskType::Resend, TaskType::Resend) => true,
    };
    types_match && a.time == b.time && a.message_id == b.message_id
}

/// A queue of tasks, sorted by due time ascending; tasks with equal due
/// times stay in insertion order.
pub struct TaskQueue {
    tasks: Vec<Task>,
}

/// Sortedness by due time.
pub open spec fn sorted_by_time(tasks: Seq<TaskModel>) -> bool {
    forall|i: int, j: int| 0 <= i < j < tasks.len() ==> tasks[i].time <= tasks[j].time
}

impl View for TaskQueue {
    type V = Seq<TaskModel>;

    closed spec fn view(&self) -> Seq<TaskModel> {
        self.tasks@.map_values(|t: Task| t@)
    }
}

impl TaskQueue {
    /// The queue's invariant: tasks are sorted by due time.
    pub open spec fn wf(&self) -> bool {
        sorted_by_time(self@)
    }

    /// An empty queue.
    pub fn new() -> (r: TaskQueue)
        ensures
            r.wf(),
            r@ == Seq::<TaskModel>::empty(),
    {
        let r = TaskQueue { tasks: Vec::new() };
        proof {
            assert(r@ =~= Seq::<TaskModel>::empty());
        }
        r
    }

    /// How many tasks are queued.
    pub fn len(&self) -> (r: usize)
        ensures
            r == self@.len(),
    {
        self.tasks.len()
    }

    /// The task at an index, earliest first.
    pub fn get(&self, i: usize) -> (r: &Task)
        requires
            i < self@.len(),
        ensures
            r@ == self@[i as int],
    {
        &self.tasks[i]
    }

    /// Inserts a task, keeping the queue sorted by due time; a task due at
    /// the same time as queued ones goes after them, so ties keep insertion
    /// order.
    pub fn insert(&mut self, task: Task)
        requires
            old(self).wf(),
        ensures
            final(self).wf(),
            exists|k: int|
                {
                    &&& 0 <= k <= old(self)@.len()
                    &&& final(self)@ == old(self)@.insert(k, task@)
                    &&& forall|i: int| 0 <= i < k ==> old(self)@[i].time <= task@.time
                    &&& forall|i: int| k <= i < old(self)@.len() ==> old(self)@[i].time > task@.time
                },
    {
        let ghost pre = self@;
        let mut k: usize = 0;
        while k < self.tasks.len() && self.tasks[k].time <= task.time
            invariant
                0 <= k <= pre.len(),
                self@ == pre,
                forall|i: int| 0 <= i < k ==> pre[i].time <= task@.time,
            decreases self.tasks.len() - k,
        {
            k = k + 1;
        }
        proof {
            assert(forall|i: int| k <= i < pre.len() ==> pre[i].time > task@.time) by {
                assert forall|i: int| k <= i < pre.len() implies pre[i].time > task@.time by {
                    if i == k {
                    } else {
                        assert(pre[k as int].time <= pre[i].time);
                    }
                }
            }
        }
        self.tasks.insert(k, task);
        proof {
            assert(self@ =~= pre.insert(k as int, task@));
            assert(self.wf()) by {
                assert forall|i: int, j: int| 0 <= i < j < self@.len() implies self@[i].time
                    <= self@[j].time by {}
            }
            assert(0 <= k <= pre.len() && self@ == pre.insert(k as int, task@) && (forall|i: int|
                0 <= i < k ==> pre[i].time <= task@.time) && (forall|i: int|
                k <= i < pre.len() ==> pre[i].time > task@.time));
        }
    }

    /// Copies out every task due at `now`, i.e. with `time <= now`.
    /// Because the queue is sorted these are exactly the first tasks.
    pub fn due_tasks(&self, now: u64) -> (r: Vec<Task>)
        requires
            self.wf(),
        ensures
            r@.map_values(|t: Task| t@) == self@.filter(|t: TaskModel| t.time <= now),
    {
        let mut r: Vec<Task> = Vec::new();
        let mut i: usize = 0;
        while i < self.tasks.len()
            invariant
                self.wf(),
                0 <= i <= self@.len(),
                r@.map_values(|t: Task| t@) == self@.take(i as int).filter(
                    |t: TaskModel| t.time <= now,
                ),
            decreases self.tasks.len() - i,
        {
            let ghost prefix = self@.take(i as int);
            if self.tasks[i].time <= now {
                r.push(self.tasks[i].clone());
            }
            proof {
                assert(self@.take(i + 1) =~= prefix.push(self@[i as int]));
                prefix.lemma_filter_push(self@[i as int], |t: TaskModel| t.time <= now);
                if self@[i as int].time <= now {
                    assert(r@.map_values(|t: Task| t@) =~= prefix.filter(
                        |t: TaskModel| t.time <= now,
                    ).push(self@[i as int]));
                }
            }
            i = i + 1;
        }
        proof {
            assert(self@.take(self@.len() as int) =~= self@);
        }
        r
    }

    /// Removes the first task structurally equal to `task`, if any.
    pub fn remove(&mut self, task: &Task)
        requires
            old(self).wf(),
        ensures
            final(self).wf(),
            (exists|i: int|
                0 <= i < old(self)@.len() && task_matches(old(self)@[i], task@)) ==> {
                exists|i: int|
                    {
                        &&& 0 <= i < old(self)@.len()
                        &&& task_matches(old(self)@[i], task@)
                        &&& final(self)@ == old(self)@.remove(i)
                        &&& forall|j: int|
                            0 <= j < i ==> !task_matches(old(self)@[j], task@)
                    }
            },
            (forall|i: int|
                0 <= i < old(self)@.len() ==> !task_matches(old(self)@[i], task@))
                ==> final(self)@ == old(self)@,
    {
        let ghost pre = self@;
        let mut i: usize = 0;
        while i < self.tasks.len()
            invariant
                self@ == pre,
                pre == old(self)@,
                sorted_by_time(pre),
                0 <= i <= pre.len(),
                forall|j: int| 0 <= j < i ==> !task_matches(pre[j], task@),
            decreases self.tasks.len() - i,
        {
            if task_eq(&self.tasks[i], task) {
                self.tasks.remove(i);
                proof {
                    assert(self@ =~= pre.remove(i as int));
                    assert(sorted_by_time(self@)) by {
                        assert forall|a: int, b: int|
                            0 <= a < b < self@.len() implies self@[a].time <= self@[b].time by {
                            if b < i {
                                assert(self@[a] == pre[a]);
                                assert(self@[b] == pre[b]);
                            } else if a < i {
                                assert(self@[a] == pre[a]);
                                assert(self@[b] == pre[b + 1]);
                            } else {
                                assert(self@[a] == pre[a + 1]);
                                assert(self@[b] == pre[b + 1]);
                            }
                        }
                    }
                    assert(0 <= i < pre.len() && task_matches(pre[i as int], task@) && self@
                        == pre.remove(i as int) && (forall|j: int|
                        0 <= j < i ==> !task_matches(pre[j], task@)));
                }
                return ;
            }
            i = i + 1;
        }
    }
}

} // verus!
