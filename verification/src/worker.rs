//! The worker engine's state and decisions: pause flag, task queue,
//! control-message handling and the wait computation of the main loop.
//!
//! The embedding shell owns the thread, the control channel and the clock;
//! each turn of its loop asks `Engine` what to wait for and what to do.

use vstd::prelude::*;
use crate::message_status::InternalMessageStatus;
use crate::task::{Task, TaskQueue, TaskType, TaskModel};

verus! {

/// How long, in seconds, the worker waits for a control message when it has
/// nothing scheduled (or is paused).
pub const LOOP_DELAY: u64 = 10;

/// The status a worker publishes for the embedder.
#[derive(Debug, Clone, Copy, PartialEq, Eq, Structural)]
pub enum WorkerStatus {
    Healthy,
    Terminated,
    ChannelDisconnected,
    LockPoisoned,
    StorageWriteFailed,
    StorageReadFailed,
    ResolverCreationFailed,
    Unknown,
}

/// The byte encoding of a worker status.
pub open spec fn spec_worker_status_to_u8(w: WorkerStatus) -> u8 {
    match w {
        WorkerStatus::Healthy => 0,
        WorkerStatus::Terminated => 1,
        WorkerStatus::ChannelDisconnected => 2,
        WorkerStatus::LockPoisoned => 3,
        WorkerStatus::StorageWriteFailed => 4,
        WorkerStatus::StorageReadFailed => 5,
        WorkerStatus::ResolverCreationFailed => 6,
        WorkerStatus::Unknown => 255,
    }
}

/// The worker status a byte decodes to.
pub open spec fn spec_worker_status_from_u8(value: u8) -> WorkerStatus {
    if value == 0 {
        WorkerStatus::Healthy
    } else if value == 1 {
        WorkerStatus::Terminated
    } else if value == 2 {
        WorkerStatus::ChannelDisconnected
    } else if value == 3 {
        WorkerStatus::LockPoisoned
    } else if value == 4 {
        WorkerStatus::StorageWriteFailed
    } else if value == 5 {
        WorkerStatus::StorageReadFailed
    } else if value == 6 {
        WorkerStatus::ResolverCreationFailed
    } else {
        WorkerStatus::Unknown
    }
}

impl WorkerStatus {
    /// Decodes the published status byte.
    pub fn from_u8(value: u8) -> (r: WorkerStatus)
        ensures
            r == spec_worker_status_from_u8(value),
    {
        match value {
            0 => WorkerStatus::Healthy,
            1 => WorkerStatus::Terminated,
            2 => WorkerStatus::ChannelDisconnected,
            3 => WorkerStatus::LockPoisoned,
            4 => WorkerStatus::StorageWriteFailed,
            5 => WorkerStatus::StorageReadFailed,
            6 => WorkerStatus::ResolverCreationFailed,
            _ => WorkerStatus::Unknown,
        }
    }

    /// Encodes this status as the published byte.
    pub fn to_u8(self) -> (r: u8)
        ensures
            r == spec_worker_status_to_u8(self),
    {
        match self {
            WorkerStatus::Healthy => 0,
            WorkerStatus::Terminated => 1,
            WorkerStatus::ChannelDisconnected => 2,
            WorkerStatus::LockPoisoned => 3,
            WorkerStatus::StorageWriteFailed => 4,
            WorkerStatus::StorageReadFailed => 5,
            WorkerStatus::ResolverCreationFailed => 6,
            WorkerStatus::Unknown => 255,
        }
    }
}

/// Decoding the byte a status encodes to gives the status back.
pub proof fn lemma_worker_status_round_trip(w: WorkerStatus)
    ensures
        spec_worker_status_from_u8(spec_worker_status_to_u8(w)) == w,
{
}

/// Whether a `Resend` task for this message, due at `now`, is queued.
pub open spec fn has_resend_task(tasks: Seq<TaskModel>, now: u64, id: Seq<char>) -> bool {
    exists|k: int|
        0 <= k < tasks.len() && #[trigger] tasks[k] == (TaskModel {
            tasktype: TaskType::Resend,
            time: now,
            message_id: id,
        })
}

/// A control message from the embedder to the worker.
#[derive(Debug)]
pub enum Message {
    /// Start sending emails.
    Start,
    /// Deliver an email (already stored under this message identifier).
    SendEmail(String),
    /// Terminate the worker.
    Terminate,
}

/// The engine's control state: the pending tasks and the pause flag.  The
/// worker starts paused, so that query-only embedders never send.
pub struct Engine {
    /// Tasks to run later, in due-time order.
    pub tasks: TaskQueue,
    /// While set, no task runs.
    pub paused: bool,
}

/// What the main loop waits before looking at the channel again: while
/// paused or with nothing queued, `LOOP_DELAY`; otherwise the time to the
/// earliest task, clamped to zero when overdue.
pub open spec fn spec_wait(paused: bool, tasks: Seq<TaskModel>, now: u64) -> u64 {
    if paused {
        LOOP_DELAY
    } else if tasks.len() == 0 {
        LOOP_DELAY
    } else if tasks[0].time > now {
        (tasks[0].time - now) as u64
    } else {
        0
    }
}

impl Engine {
    /// The engine's invariant: the task queue is sorted.
    pub open spec fn wf(&self) -> bool {
        self.tasks.wf()
    }

    /// A fresh engine: paused, with no tasks.
    pub fn new() -> (r: Engine)
        ensures
            r.wf(),
            r.paused,
            r.tasks@.len() == 0,
    {
        Engine { tasks: TaskQueue::new(), paused: true }
    }

    /// One `Resend` task per rehydrated message, due immediately.  Started
    /// on an empty queue, the tasks sit in the order of the statuses.
    pub fn load_incomplete(&mut self, statuses: &Vec<InternalMessageStatus>, now: u64)
        requires
            old(self).wf(),
        ensures
            final(self).wf(),
            final(self).paused == old(self).paused,
            final(self).tasks@.len() == old(self).tasks@.len() + statuses@.len(),
            forall|i: int|
                0 <= i < statuses@.len() ==> has_resend_task(
                    final(self).tasks@,
                    now,
                    #[trigger] statuses@[i]@.message_id,
                ),
    {
        let mut i: usize = 0;
        while i < statuses.len()
            invariant
                self.wf(),
                self.paused == old(self).paused,
                0 <= i <= statuses@.len(),
                self.tasks@.len() == old(self).tasks@.len() + i,
                forall|j: int|
                    0 <= j < i ==> has_resend_task(
                        self.tasks@,
                        now,
                        #[trigger] statuses@[j]@.message_id,
                    ),
            decreases statuses.len() - i,
        {
            let ghost pre = self.tasks@;
            let task = Task {
                tasktype: TaskType::Resend,
                time: now,
                message_id: statuses[i].message_id.clone(),
            };
            let ghost tv = task@;
            self.tasks.insert(task);
            proof {
                let k = choose|k: int|
                    0 <= k <= pre.len() && self.tasks@ == pre.insert(k, tv) && (forall|x: int|
                        0 <= x < k ==> pre[x].time <= tv.time) && (forall|x: int|
                        k <= x < pre.len() ==> pre[x].time > tv.time);
                assert(self.tasks@[k] == tv);
                assert forall|j: int| 0 <= j < i + 1 implies has_resend_task(
                    self.tasks@,
                    now,
                    statuses@[j]@.message_id,
                ) by {
                    if j == i {
                        assert(self.tasks@[k] == (TaskModel {
                            tasktype: TaskType::Resend,
                            time: now,
                            message_id: statuses@[j]@.message_id,
                        }));
                    } else {
                        let m0 = choose|m0: int|
                            0 <= m0 < pre.len() && #[trigger] pre[m0] == (TaskModel {
                                tasktype: TaskType::Resend,
                                time: now,
                                message_id: statuses@[j]@.message_id,
                            });
                        if m0 < k {
                            assert(self.tasks@[m0] == pre[m0]);
                        } else {
                            assert(self.tasks@[m0 + 1] == pre[m0]);
                        }
                    }
                }
            }
            i = i + 1;
        }
    }

    /// The seconds the main loop waits for a control message this turn.
    pub fn compute_wait(&self, now: u64) -> (r: u64)
        requires
            self.wf(),
        ensures
            r == spec_wait(self.paused, self.tasks@, now),
    {
        if self.paused {
            LOOP_DELAY
        } else if self.tasks.len() == 0 {
            LOOP_DELAY
        } else {
            let t = self.tasks.get(0).time;
            if t > now {
                t - now
            } else {
                0
            }
        }
    }

    /// Applies one control message: `Start` clears the pause flag,
    /// `SendEmail` queues an immediate `Resend` task, and `Terminate` asks
    /// the caller to stop the worker.
    pub fn handle_control(&mut self, msg: Message, now: u64) -> (terminate: bool)
        requires
            old(self).wf(),
        ensures
            final(self).wf(),
            match msg {
                Message::Start => {
                    &&& !terminate
                    &&& !final(self).paused
                    &&& final(self).tasks@ == old(self).tasks@
                },
                Message::SendEmail(id) => {
                    &&& !terminate
                    &&& final(self).paused == old(self).paused
                    &&& exists|k: int|
                        {
                            &&& 0 <= k <= old(self).tasks@.len()
                            &&& final(self).tasks@ == old(self).tasks@.insert(
                                k,
                                TaskModel {
                                    tasktype: TaskType::Resend,
                                    time: now,
                                    message_id: id@,
                                },
                            )
                        }
                },
                Message::Terminate => {
                    &&& terminate
                    &&& final(self).paused == old(self).paused
                    &&& final(self).tasks@ == old(self).tasks@
                },
            },
    {
        match msg {
            Message::Start => {
                self.paused = false;
                false
            },
            Message::SendEmail(message_id) => {
                let task = Task { tasktype: TaskType::Resend, time: now, message_id };
                self.tasks.insert(task);
                false
            },
            Message::Terminate => true,
        }
    }
}

} // verus!
