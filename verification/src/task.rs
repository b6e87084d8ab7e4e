//! The task control block and the table that holds the live tasks.

use vstd::prelude::*;
use crate::arch::STACK_CANARY;
use crate::lookup::{first_index, first_index_from, occurs};
use crate::semaphore::Semaphore;
use crate::task_state::{TaskState, TaskStateStruct, TaskStateView};

verus! {

/// The default and recommended stack size for a task, in words.
pub const DEFAULT_STACK_SIZE: usize = 1536;

/// What a spawned task was started with: its entry point, the address of its
/// boxed parameter (zero if it has none), and the handle of the semaphore
/// that is given when the task exits.
#[derive(Clone, Copy, PartialEq, Eq, Structural, Debug)]
pub struct NewTaskInfo {
    pub ep: usize,
    pub param: usize,
    pub sem: usize,
}

/// What a task is, for contracts.
pub struct TaskView {
    /// Word offset of the saved stack pointer.
    pub sp: usize,
    /// Word offset of the overflow sentinel.
    pub canary: usize,
    /// The stack memory, lowest address first.
    pub stack: Seq<usize>,
    /// Whether the stack is heap-backed rather than a static region.
    pub dynamic: bool,
    /// The payload of a spawned task.
    pub task_info: Option<NewTaskInfo>,
    /// The guarded state cell.
    pub state: TaskStateView,
    /// The process identifier.
    pub pid: usize,
    /// Whether the kernel task has taken the task into its list.
    pub adopted: bool,
}

impl TaskView {
    /// Whether the sentinel is still where it was planted.
    pub open spec fn canary_intact(self) -> bool {
        self.canary < self.stack.len() && self.stack[self.canary as int] == STACK_CANARY
    }

    /// The state as the scheduler and the kernel task read it.
    pub open spec fn observed(self) -> TaskState {
        self.state.observed()
    }

    /// The same task with another state cell.
    pub open spec fn with_state(self, state: TaskStateView) -> TaskView {
        TaskView { state, ..self }
    }

    /// The address of the boxed parameter that has to be freed when the task
    /// is reclaimed, if it has one.
    pub open spec fn payload(self) -> Option<usize> {
        match self.task_info {
            Some(info) => if info.param != 0 {
                Some(info.param)
            } else {
                None
            },
            None => None,
        }
    }
}

/// An independently schedulable unit of execution with its own stack and
/// state.
pub struct Task {
    sp: usize,
    canary: usize,
    stack: Vec<usize>,
    dynamic: bool,
    task_info: Option<NewTaskInfo>,
    state: TaskStateStruct,
    pid: usize,
    adopted: bool,
}

impl View for Task {
    type V = TaskView;

    closed spec fn view(&self) -> TaskView {
        TaskView {
            sp: self.sp,
            canary: self.canary,
            stack: self.stack@,
            dynamic: self.dynamic,
            task_info: self.task_info,
            state: self.state@,
            pid: self.pid,
            adopted: self.adopted,
        }
    }
}

impl Task {
    /// A runnable task that the kernel task has not adopted yet.
    pub fn new(
        pid: usize,
        stack: Vec<usize>,
        canary: usize,
        sp: usize,
        dynamic: bool,
        task_info: Option<NewTaskInfo>,
    ) -> (task: Task)
        ensures
            task@ == (TaskView {
                sp,
                canary,
                stack: stack@,
                dynamic,
                task_info,
                state: TaskStateView { state: TaskState::Runnable, held: false },
                pid,
                adopted: false,
            }),
    {
        Task { sp, canary, stack, dynamic, task_info, state: TaskStateStruct::new(), pid, adopted: false }
    }

    /// The process identifier.
    pub fn pid(&self) -> (pid: usize)
        ensures
            pid == self@.pid,
    {
        self.pid
    }

    /// Whether the kernel task has taken the task into its list.
    pub fn is_adopted(&self) -> (adopted: bool)
        ensures
            adopted == self@.adopted,
    {
        self.adopted
    }

    /// Records that the kernel task has taken the task into its list.
    pub fn adopt(&mut self)
        ensures
            final(self)@ == (TaskView { adopted: true, ..old(self)@ }),
    {
        self.adopted = true;
    }

    /// The payload the task was spawned with.
    pub fn task_info(&self) -> (info: Option<NewTaskInfo>)
        ensures
            info == self@.task_info,
    {
        self.task_info
    }

    /// The address of the boxed parameter to free when the task is
    /// reclaimed, if it has one.
    pub fn payload(&self) -> (param: Option<usize>)
        ensures
            param == self@.payload(),
    {
        match self.task_info {
            Some(info) => if info.param != 0 {
                Some(info.param)
            } else {
                None
            },
            None => None,
        }
    }

    /// Whether the overflow sentinel still holds its value.
    pub fn canary_intact(&self) -> (intact: bool)
        ensures
            intact == self@.canary_intact(),
    {
        self.canary < self.stack.len() && self.stack[self.canary] == STACK_CANARY
    }

    /// The word at `offset` of the stack, if the stack has such a word.
    pub fn read_stack(&self, offset: usize) -> (word: Option<usize>)
        ensures
            word == if offset < self@.stack.len() {
                Some(self@.stack[offset as int])
            } else {
                None
            },
    {
        if offset < self.stack.len() {
            Some(self.stack[offset])
        } else {
            None
        }
    }

    /// The word offset of the saved stack pointer.
    pub fn sp(&self) -> (sp: usize)
        ensures
            sp == self@.sp,
    {
        self.sp
    }

    /// Stores `value` at word `offset` of the stack, as the running task may
    /// do at any time. Returns false, with nothing changed, if the stack has
    /// no such word.
    pub fn write_stack(&mut self, offset: usize, value: usize) -> (written: bool)
        ensures
            written == (offset < old(self)@.stack.len()),
            final(self)@ == if written {
                TaskView { stack: old(self)@.stack.update(offset as int, value), ..old(self)@ }
            } else {
                old(self)@
            },
    {
        if offset < self.stack.len() {
            self.stack[offset] = value;
            true
        } else {
            false
        }
    }

    /// Reads the state if the guard of the state cell is free.
    pub fn try_get_state(&self) -> (state: Option<TaskState>)
        ensures
            state == if self@.state.held {
                None
            } else {
                Some(self@.state.state)
            },
    {
        self.state.try_get()
    }

    /// Reads the state, taking a held guard for `Runnable`.
    pub fn observed_state(&self) -> (state: TaskState)
        ensures
            state == self@.observed(),
    {
        self.state.get_or_runnable()
    }

    /// Stores `new_state` if the guard of the state cell is free and returns
    /// whether it did.
    pub fn try_set_state(&mut self, new_state: TaskState) -> (stored: bool)
        ensures
            stored == !old(self)@.state.held,
            final(self)@ == if stored {
                old(self)@.with_state(TaskStateView { state: new_state, held: false })
            } else {
                old(self)@
            },
    {
        self.state.try_set(new_state)
    }

    /// Tries to get hold of the guard of the state cell, as the first half of
    /// an update does. Returns whether the guard was free.
    pub fn try_acquire_state(&mut self) -> (acquired: bool)
        ensures
            acquired == !old(self)@.state.held,
            final(self)@ == old(self)@.with_state(
                TaskStateView { state: old(self)@.state.state, held: true },
            ),
    {
        self.state.try_acquire()
    }

    /// Lets go of the guard of the state cell.
    pub fn release_state(&mut self)
        ensures
            final(self)@ == old(self)@.with_state(
                TaskStateView { state: old(self)@.state.state, held: false },
            ),
    {
        self.state.release()
    }

    /// Gives the completion semaphore of a spawned task. Does nothing for a
    /// task without payload, or whose handle names no semaphore.
    pub fn give(&self, semaphores: &mut Vec<Semaphore>)
        ensures
            final(semaphores)@.len() == old(semaphores)@.len(),
            forall|h: int|
                0 <= h < old(semaphores)@.len() ==> (#[trigger] final(semaphores)@[h])@ == if self@.task_info
                    is Some && self@.task_info->0.sem == h {
                    old(semaphores)@[h]@.given()
                } else {
                    old(semaphores)@[h]@
                },
    {
        if let Some(task_info) = self.task_info {
            if task_info.sem < semaphores.len() {
                semaphores[task_info.sem].give();
            }
        }
    }
}

/// The views of the tasks in a table, in table order.
pub open spec fn views(tasks: Seq<Task>) -> Seq<TaskView> {
    tasks.map_values(|t: Task| t@)
}

/// The process identifiers of the tasks in a table, in table order.
pub open spec fn pids(tasks: Seq<TaskView>) -> Seq<usize> {
    tasks.map_values(|t: TaskView| t.pid)
}

/// Whether the table holds a task with this identifier.
pub open spec fn has_task(tasks: Seq<TaskView>, pid: usize) -> bool {
    occurs(pids(tasks), pid)
}

/// Position of the first task with this identifier, or the length of the
/// table if there is none.
pub open spec fn task_index(tasks: Seq<TaskView>, pid: usize) -> int {
    first_index(pids(tasks), pid)
}

/// Whether the task with this identifier reads as `Runnable`. An identifier
/// that names no task does not.
pub open spec fn is_runnable(tasks: Seq<TaskView>, pid: usize) -> bool {
    has_task(tasks, pid) && tasks[task_index(tasks, pid)].observed() is Runnable
}

/// Finds the task with this identifier.
pub fn find_task(tasks: &Vec<Task>, pid: usize) -> (found: Option<usize>)
    ensures
        found == if has_task(views(tasks@), pid) {
            Some(task_index(views(tasks@), pid) as usize)
        } else {
            None
        },
        found is Some ==> found->0 < tasks.len() && tasks@[found->0 as int]@.pid == pid
            && found->0 == task_index(views(tasks@), pid),
{
    let ghost ids = pids(views(tasks@));
    let mut i: usize = 0;
    while i < tasks.len()
        invariant
            i <= tasks.len(),
            ids == pids(views(tasks@)),
            ids.len() == tasks.len(),
            first_index(ids, pid) == first_index_from(ids, pid, i as int),
        decreases tasks.len() - i,
    {
        if tasks[i].pid() == pid {
            assert(ids[i as int] == pid);
            return Some(i);
        }
        assert(ids[i as int] != pid);
        i += 1;
    }
    None
}

/// Whether the task with this identifier reads as `Runnable`.
pub fn task_is_runnable(tasks: &Vec<Task>, pid: usize) -> (runnable: bool)
    ensures
        runnable == is_runnable(views(tasks@), pid),
{
    match find_task(tasks, pid) {
        Some(i) => {
            assert(views(tasks@)[i as int] == tasks@[i as int]@);
            match tasks[i].observed_state() {
                TaskState::Runnable => true,
                _ => false,
            }
        },
        None => false,
    }
}

} // verus!
