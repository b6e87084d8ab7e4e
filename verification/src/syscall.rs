//! The privileged operations that tasks request by trap.
//!
//! Every operation follows one pattern: it attempts its change of the task's
//! state without waiting, and where the state cell is contended it reports
//! `Retry`, upon which the caller yields and asks again. What is requested
//! here only takes effect in the task's life once the context switch that
//! the operation asked for has been carried out.

use vstd::prelude::*;
use crate::consistency::lemma_wf_preserved;
use crate::kernel::{Kernel, KernelView};
use crate::semaphore::SemaphoreView;
use crate::task::NewTaskInfo;

verus! {

/// How a privileged operation ended.
#[derive(Clone, Copy, PartialEq, Eq, Structural, Debug)]
pub enum SyscallStep {
    /// The request has been recorded.
    Done,
    /// The state cell was contended: yield, then ask again.
    Retry,
    /// The system is halted: nothing was done, and nothing will be.
    Halted,
}

/// Keeps the privileged entry points from being discarded by the linker.
pub fn link_syscalls() {
}

impl KernelView {
    /// The context after the running task has asked to exit: its completion
    /// semaphore is given, and it is marked finished if its state cell can
    /// be had.
    pub open spec fn after_exit(self) -> KernelView {
        if self.halted {
            self
        } else {
            self.after_give_completion().after_remove_task()
        }
    }

    /// How a request with the given context before it ends, if all it does
    /// is park the running task.
    pub open spec fn park_step(self) -> SyscallStep {
        if self.halted {
            SyscallStep::Halted
        } else if self.park_stored() {
            SyscallStep::Done
        } else {
            SyscallStep::Retry
        }
    }

    /// How a request to block on `sem` ends. A task that could not be parked
    /// does not wait if the semaphore has become available in the meantime.
    pub open spec fn block_step(self, sem: usize) -> SyscallStep {
        if self.halted {
            SyscallStep::Halted
        } else if self.park_stored() || self.sem_available(sem) {
            SyscallStep::Done
        } else {
            SyscallStep::Retry
        }
    }

    /// The context after a task has been spawned: a completion semaphore
    /// that counts zero has been added, and the new task carries its handle
    /// together with its entry point and its parameter. The task starts in
    /// the helper routine, which gets the parameter as its argument.
    pub open spec fn after_task_spawn(self, words: usize, entry: usize, param: usize) -> KernelView {
        if self.can_spawn(words) {
            self.after_sem_new(SemaphoreView { count: 0, mutex: false }).after_spawn(
                words,
                self.helper,
                param,
                Some(NewTaskInfo { ep: entry, param, sem: self.semaphores.len() as usize }),
                true,
            )
        } else {
            self
        }
    }
}

impl Kernel {
    /// Ends the running task: gives its completion semaphore, marks it
    /// finished and requests a context switch. The task's stack is only
    /// reclaimed later, by the kernel task.
    ///
    /// On `Retry` the caller yields and calls `remove_task` until it
    /// returns true.
    pub fn sys_exit(&mut self) -> (step: SyscallStep)
        ensures
            step == old(self)@.park_step(),
            final(self)@ == old(self)@.after_exit(),
            old(self)@.wf() ==> final(self)@.wf(),
    {
        proof {
            if self@.wf() {
                lemma_wf_preserved(self@, 0, 0, 0, 0, 0, SemaphoreView { count: 0, mutex: false }, 0);
            }
        }
        if self.is_halted() {
            return SyscallStep::Halted;
        }
        self.give_completion();
        if self.remove_task() {
            SyscallStep::Done
        } else {
            SyscallStep::Retry
        }
    }

    /// Puts the running task to sleep for `ms` ticks of the clock and
    /// requests a context switch.
    pub fn sys_sleep(&mut self, ms32: u32) -> (step: SyscallStep)
        ensures
            step == old(self)@.park_step(),
            final(self)@ == old(self)@.after_sleep(ms32 as u64),
            old(self)@.wf() ==> final(self)@.wf(),
    {
        proof {
            if self@.wf() {
                lemma_wf_preserved(self@, ms32 as u64, 0, 0, 0, 0, SemaphoreView { count: 0, mutex: false }, 0);
            }
        }
        if self.is_halted() {
            return SyscallStep::Halted;
        }
        let ms: u64 = ms32 as u64;
        if self.sleep(ms) {
            SyscallStep::Done
        } else {
            SyscallStep::Retry
        }
    }

    /// Blocks the running task until the semaphore `sem` is available and
    /// requests a context switch.
    pub fn sys_block(&mut self, sem: usize) -> (step: SyscallStep)
        ensures
            step == old(self)@.block_step(sem),
            final(self)@ == old(self)@.after_block(sem),
            old(self)@.wf() ==> final(self)@.wf(),
    {
        proof {
            if self@.wf() {
                lemma_wf_preserved(self@, 0, sem, 0, 0, 0, SemaphoreView { count: 0, mutex: false }, 0);
            }
        }
        if self.is_halted() {
            return SyscallStep::Halted;
        }
        if self.block(sem) {
            SyscallStep::Done
        } else if self.sem_is_available(sem) {
            // The semaphore was given while the state cell was contended: do not wait for
            // a wakeup that has already happened.
            SyscallStep::Done
        } else {
            SyscallStep::Retry
        }
    }

    /// Creates a task with a stack of `stack_size` words that runs
    /// `entry_point` on `parameter` and then exits, and queues it for
    /// adoption. Returns the handle of a semaphore that is given when the
    /// task exits, or `None`, with nothing changed, if no task can be
    /// created.
    pub fn sys_task_spawn(&mut self, stack_size: usize, entry_point: usize, parameter: usize) -> (sem:
        Option<usize>)
        ensures
            sem == if old(self)@.can_spawn(stack_size) {
                Some(old(self)@.semaphores.len() as usize)
            } else {
                None
            },
            final(self)@ == old(self)@.after_task_spawn(stack_size, entry_point, parameter),
            old(self)@.wf() ==> final(self)@.wf(),
    {
        proof {
            if self@.wf() {
                lemma_wf_preserved(self@, 0, 0, stack_size, entry_point, parameter, SemaphoreView { count: 0, mutex: false }, 0);
            }
        }
        if !self.can_spawn(stack_size) {
            return None;
        }
        let sem: usize = self.sem_new(0);
        let task_info = NewTaskInfo { ep: entry_point, param: parameter, sem };
        let helper: usize = self.task_helper();
        let pid: Option<usize> = self.spawn(stack_size, helper, parameter, Some(task_info), true);
        Some(sem)
    }

    /// Gives up the processor: requests a context switch and returns
    /// whether it has to be triggered.
    pub fn sys_yield(&mut self) -> (triggered: bool)
        ensures
            triggered == old(self)@.switches(),
            final(self)@ == old(self)@.after_context_switch(),
            old(self)@.wf() ==> final(self)@.wf(),
    {
        self.do_context_switch()
    }

    /// Spawns a task and starts to wait for its exit: the spawning task
    /// blocks on the completion semaphore of the new one. Returns the handle
    /// of that semaphore and how the request to block ended, or `None`, with
    /// nothing changed, if no task can be created.
    pub fn task_spawn_block(&mut self, stack_size: usize, entry_point: usize, parameter: usize) -> (r:
        Option<(usize, SyscallStep)>)
        ensures
            r == if old(self)@.can_spawn(stack_size) {
                Some(
                    (
                        old(self)@.semaphores.len() as usize,
                        old(self)@.after_task_spawn(stack_size, entry_point, parameter).block_step(
                            old(self)@.semaphores.len() as usize,
                        ),
                    ),
                )
            } else {
                None
            },
            final(self)@ == if old(self)@.can_spawn(stack_size) {
                old(self)@.after_task_spawn(stack_size, entry_point, parameter).after_block(
                    old(self)@.semaphores.len() as usize,
                )
            } else {
                old(self)@
            },
            old(self)@.wf() ==> final(self)@.wf(),
    {
        match self.sys_task_spawn(stack_size, entry_point, parameter) {
            Some(sem) => {
                let step: SyscallStep = self.sys_block(sem);
                Some((sem, step))
            },
            None => None,
        }
    }
}

} // verus!
