//! The state of a task and the guarded cell that holds it.
//!
//! The cell is read and written from interrupt context, which must never
//! wait: both operations first try to get a single-slot guard and give up at
//! once when it is held. Retrying is left to the caller.

use vstd::prelude::*;

verus! {

/// Where a task stands in its life.
#[derive(Clone, Copy, PartialEq, Eq, Structural, Debug)]
pub enum TaskState {
    /// Ready to be given the processor.
    Runnable,
    /// Sleeping until the clock reads more than the given tick.
    Asleep(u64),
    /// Waiting for the semaphore with the given handle to become available.
    Blocking(usize),
    /// Finished, and waiting to be reclaimed by the kernel task.
    Zombie,
}

impl TaskState {
    /// Whether the task has been parked by a sleep or a block.
    pub open spec fn parked(self) -> bool {
        self is Asleep || self is Blocking
    }
}

/// A task state always carries exactly one of the four tags.
pub proof fn lemma_exactly_one_tag(s: TaskState)
    ensures
        (s is Runnable) || (s is Asleep) || (s is Blocking) || (s is Zombie),
        !((s is Runnable) && (s is Asleep)),
        !((s is Runnable) && (s is Blocking)),
        !((s is Runnable) && (s is Zombie)),
        !((s is Asleep) && (s is Blocking)),
        !((s is Asleep) && (s is Zombie)),
        !((s is Blocking) && (s is Zombie)),
{
}

/// What a state cell is, for contracts: the state it stores and whether its
/// guard is currently held.
pub struct TaskStateView {
    pub state: TaskState,
    pub held: bool,
}

impl TaskStateView {
    /// What a reader makes of the cell: the stored state, or `Runnable` when
    /// the guard cannot be had. A task caught in the middle of a transition
    /// is thus scheduled once too often rather than once too rarely.
    pub open spec fn observed(self) -> TaskState {
        if self.held {
            TaskState::Runnable
        } else {
            self.state
        }
    }
}

/// A task state behind a non-blocking guard.
pub struct TaskStateStruct {
    state: TaskState,
    in_use: bool,
}

impl View for TaskStateStruct {
    type V = TaskStateView;

    closed spec fn view(&self) -> TaskStateView {
        TaskStateView { state: self.state, held: self.in_use }
    }
}

impl TaskStateStruct {
    /// A cell that holds `Runnable`, with its guard free.
    pub fn new() -> (cell: TaskStateStruct)
        ensures
            cell@ == (TaskStateView { state: TaskState::Runnable, held: false }),
    {
        TaskStateStruct { state: TaskState::Runnable, in_use: false }
    }

    /// Tries to get the guard. Returns true, with the guard now held, exactly
    /// when it was free. The stored state is not touched.
    pub fn try_acquire(&mut self) -> (acquired: bool)
        ensures
            acquired == !old(self)@.held,
            final(self)@ == (TaskStateView { state: old(self)@.state, held: true }),
    {
        if self.in_use {
            false
        } else {
            self.in_use = true;
            true
        }
    }

    /// Lets go of the guard. The stored state is not touched.
    pub fn release(&mut self)
        ensures
            final(self)@ == (TaskStateView { state: old(self)@.state, held: false }),
    {
        self.in_use = false;
    }

    /// Reads the state if the guard is free; returns `None` at once if it is
    /// held.
    pub fn try_get(&self) -> (state: Option<TaskState>)
        ensures
            state == if self@.held {
                None
            } else {
                Some(self@.state)
            },
    {
        if self.in_use {
            None
        } else {
            Some(self.state)
        }
    }

    /// Reads the state as the scheduler and the kernel task do: a cell whose
    /// guard is held counts as `Runnable`.
    pub fn get_or_runnable(&self) -> (state: TaskState)
        ensures
            state == self@.observed(),
    {
        match self.try_get() {
            Some(state) => state,
            None => TaskState::Runnable,
        }
    }

    /// Stores `new_state` if the guard is free and returns true; returns
    /// false at once, with nothing changed, if it is held.
    ///
    /// After a successful change to anything but `Runnable` the task must not
    /// go on running: the caller has to request a context switch.
    pub fn try_set(&mut self, new_state: TaskState) -> (stored: bool)
        ensures
            stored == !old(self)@.held,
            final(self)@ == if old(self)@.held {
                old(self)@
            } else {
                TaskStateView { state: new_state, held: false }
            },
    {
        if self.in_use {
            false
        } else {
            self.state = new_state;
            true
        }
    }
}

} // verus!
