//! Scheduling: the states of a task and the per-CPU run queues.
use vstd::prelude::*;

pub mod cpu_queue;
pub mod preempt;
pub mod round_robin;
pub mod task_container;

verus! {

/// The scheduling state of a task.
#[derive(Debug, Copy, Clone, PartialEq, Eq, Structural)]
pub enum TaskState {
    Unused,
    Idle,
    Runnable,
    AwaitingIo,
    Stopped,
}

impl TaskState {
    /// The number that stands for each state.
    pub open spec fn spec_number(self) -> usize {
        match self {
            TaskState::Unused => 0,
            TaskState::Idle => 1,
            TaskState::Runnable => 2,
            TaskState::AwaitingIo => 4,
            TaskState::Stopped => 5,
        }
    }

    /// The number that stands for the state.
    pub fn number(self) -> (n: usize)
        ensures
            n == self.spec_number(),
    {
        match self {
            TaskState::Unused => 0,
            TaskState::Idle => 1,
            TaskState::Runnable => 2,
            TaskState::AwaitingIo => 4,
            TaskState::Stopped => 5,
        }
    }

    /// The state a number stands for; the numbers 3 and above 5 stand for none.
    pub fn from_number(val: usize) -> (s: Option<TaskState>)
        ensures
            s matches Some(st) ==> st.spec_number() == val,
            s is None <==> (val == 3 || val > 5),
    {
        match val {
            0 => Some(TaskState::Unused),
            1 => Some(TaskState::Idle),
            2 => Some(TaskState::Runnable),
            4 => Some(TaskState::AwaitingIo),
            5 => Some(TaskState::Stopped),
            _ => None,
        }
    }
}

/// The error of an interrupted wait.
#[derive(Debug, Copy, Clone, PartialEq, Eq, Structural)]
pub enum SignalError {
    Interrupted,
}

/// The sleep flag that keeps signals from interrupting the sleep.
pub const SLEEP_NON_INTERRUPTIBLE: u64 = 1;

} // verus!
