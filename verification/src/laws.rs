//! What holds of the kernel context across its operations.

use vstd::prelude::*;
use crate::kernel::{KernelView, PassOutcome};
use crate::syscall::SyscallStep;
use crate::semaphore::SemaphoreView;
use crate::task::{pids, NewTaskInfo};
use crate::task_state::TaskState;

verus! {

/// No task that was parked has been made runnable, no task has left the
/// table, and no identifier that was out of use has come back.
pub open spec fn no_wakeup(before: KernelView, after: KernelView) -> bool {
    &&& after.tasks.len() >= before.tasks.len()
    &&& after.next_pid >= before.next_pid
    &&& forall|i: int|
        0 <= i < before.tasks.len() ==> (#[trigger] after.tasks[i]).pid == before.tasks[i].pid
            && (before.tasks[i].state.state.parked() ==> !(after.tasks[i].state.state is Runnable))
    &&& forall|i: int|
        before.tasks.len() <= i < after.tasks.len() ==> (#[trigger] after.tasks[i]).pid
            >= before.next_pid
}

/// Storing a state for the running context never makes a parked task
/// runnable, as long as the state stored is not `Runnable`.
pub proof fn lemma_park_no_wakeup(k: KernelView, new_state: TaskState)
    requires
        !(new_state is Runnable),
    ensures
        no_wakeup(k, k.after_park(new_state)),
        no_wakeup(k, k.after_park(new_state).after_context_switch()),
{
    if k.cur_in_table() {
        crate::lookup::lemma_first_index(pids(k.tasks), k.cur_task->0);
    }
}

/// Only the kernel task wakes tasks up: whatever the timer interrupt, a
/// context switch, a privileged operation or a semaphore operation does, a
/// task whose state was `Asleep` or `Blocking` is not `Runnable` afterwards.
pub proof fn lemma_only_kernel_wakes(
    k: KernelView,
    ticks: u64,
    sem: usize,
    words: usize,
    entry: usize,
    param: usize,
    info: Option<NewTaskInfo>,
    dynamic: bool,
    new_sem: SemaphoreView,
)
    ensures
        no_wakeup(k, k.after_tick()),
        no_wakeup(k, k.after_context_switch()),
        no_wakeup(k, k.after_sleep(ticks)),
        no_wakeup(k, k.after_block(sem)),
        no_wakeup(k, k.after_remove_task()),
        no_wakeup(k, k.after_exit()),
        no_wakeup(k, k.after_spawn(words, entry, param, info, dynamic)),
        no_wakeup(k, k.after_task_spawn(words, entry, param)),
        no_wakeup(k, k.after_sem_new(new_sem)),
        no_wakeup(k, k.after_sem_take(sem)),
        no_wakeup(k, k.after_sem_give(sem)),
{
    lemma_park_no_wakeup(k, TaskState::Asleep(crate::kernel::deadline(k.now, ticks)));
    lemma_park_no_wakeup(k, TaskState::Blocking(sem));
    lemma_park_no_wakeup(k, TaskState::Zombie);
    lemma_park_no_wakeup(k.after_give_completion(), TaskState::Zombie);
}

/// The kernel task wakes a task only when it is due: a task that a pass
/// finds `Asleep` is runnable afterwards exactly if the clock reads strictly
/// more than its deadline, and one that it finds `Blocking` exactly if its
/// semaphore can be taken. Every other task keeps its state.
pub proof fn lemma_kernel_wakes_when_due(k: KernelView, i: int)
    requires
        0 <= i < k.tasks.len(),
    ensures
        k.after_promotion().tasks.len() == k.tasks.len(),
        k.after_promotion().tasks[i].pid == k.tasks[i].pid,
        k.after_promotion().tasks[i].state.state == match k.tasks[i].state.state {
            TaskState::Asleep(wake_tick) => if k.tasks[i].adopted && !k.tasks[i].state.held
                && wake_tick < k.now {
                TaskState::Runnable
            } else {
                TaskState::Asleep(wake_tick)
            },
            TaskState::Blocking(sem) => if k.tasks[i].adopted && !k.tasks[i].state.held
                && k.sem_available(sem) {
                TaskState::Runnable
            } else {
                TaskState::Blocking(sem)
            },
            other => other,
        },
{
}

/// Once a stack overflow has halted the system nothing makes progress any
/// more: the clock stands still, no task is chosen, created, parked, woken
/// or reclaimed, and every request is answered with `Halted`.
pub proof fn lemma_halted_is_final(
    k: KernelView,
    ticks: u64,
    sem: usize,
    words: usize,
    entry: usize,
    param: usize,
    info: Option<NewTaskInfo>,
    dynamic: bool,
)
    requires
        k.halted,
    ensures
        k.after_tick() == k,
        k.after_context_switch() == k,
        !k.switches(),
        k.after_sleep(ticks) == k,
        k.after_block(sem) == k,
        k.after_remove_task() == k,
        k.after_exit() == k,
        k.after_spawn(words, entry, param, info, dynamic) == k,
        k.after_task_spawn(words, entry, param) == k,
        k.after_kernel() == k,
        k.kernel_outcome() == PassOutcome::Halted,
        k.park_step() == SyscallStep::Halted,
        k.block_step(sem) == SyscallStep::Halted,
{
}

/// A pass that finds the sentinel of an adopted task overwritten halts the
/// system and changes nothing else.
pub proof fn lemma_overflow_halts(k: KernelView)
    requires
        !k.halted,
        k.overflow_detected(),
    ensures
        k.after_kernel() == (KernelView { halted: true, ..k }),
        k.kernel_outcome() is StackOverflow,
{
}

} // verus!
