//! Tasks as the scheduler sees them.

use vstd::prelude::*;

verus! {

/// A task is named by its index in the scheduler's task table. The wait slot
/// of a synchronization object and the sleep queue may hold the same
/// identifier at once; whichever removes it first acts on the task.
pub type TaskId = usize;

/// Where a task stands in its life cycle.
#[derive(Clone, Copy, PartialEq, Eq, Debug, Structural)]
pub enum TaskState {
    /// Waiting to be chosen by the scheduler.
    Ready,
    /// The one task that currently owns the processor.
    Running,
    /// Parked on a synchronization object, on the sleep queue, or on both.
    Blocked,
    /// Finished for good. Only a task that is not restartable ends up here.
    Terminated,
}

/// One slot of the task table.
#[derive(Clone, Copy, PartialEq, Eq, Debug, Structural)]
pub struct Task {
    /// A token for the entry point, meaningful to the platform only.
    pub entry: usize,
    /// Urgency of the task. A lower number is a higher priority.
    pub priority: u8,
    /// Current state.
    pub state: TaskState,
    /// Whether the task is started afresh from its entry point when it ends.
    pub restartable: bool,
}

impl TaskState {
    /// Whether a task may go from state `self` to state `next` in one step
    /// of the scheduler. A ready task is dispatched; a running task is
    /// preempted, blocks, or ends, and is ready again at once if it
    /// restarts; a blocked task is woken. A terminated task stays
    /// terminated.
    pub open spec fn may_become(self, next: TaskState) -> bool {
        ||| self == next
        ||| self == TaskState::Ready && next == TaskState::Running
        ||| self == TaskState::Running && next != TaskState::Running
        ||| self == TaskState::Blocked && next == TaskState::Ready
    }
}

impl Task {
    /// A fresh task, ready to run.
    pub fn new(entry: usize, priority: u8, restartable: bool) -> (task: Task)
        ensures
            task == (Task { entry, priority, state: TaskState::Ready, restartable }),
    {
        Task { entry, priority, state: TaskState::Ready, restartable }
    }

    /// The same task in another state.
    pub open spec fn with_state(self, state: TaskState) -> Task {
        Task { state, ..self }
    }

    /// The same task with another priority.
    pub open spec fn with_priority(self, priority: u8) -> Task {
        Task { priority, ..self }
    }

    /// Whether `self` is chosen before `other` when both are ready: the lower
    /// priority number wins, and the lower identifier among equals.
    pub open spec fn precedes(self, id: TaskId, other: Task, other_id: TaskId) -> bool {
        self.priority < other.priority || (self.priority == other.priority && id <= other_id)
    }
}

} // verus!
