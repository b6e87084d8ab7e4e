use fe_rtos::arch::{Arch, INIT_XPSR, STACK_CANARY};
use fe_rtos::kernel::{start_scheduler, Kernel, PassOutcome, Reaped};
use fe_rtos::semaphore::TakeAction;
use fe_rtos::syscall::{link_syscalls, SyscallStep};
use fe_rtos::task::{NewTaskInfo, DEFAULT_STACK_SIZE};
use fe_rtos::task_state::TaskState;

const KERNEL_ENTRY: usize = 0x1000;
const IDLE: usize = 0x2000;
const ENTRY: usize = 0x3000;
const HELPER: usize = 0x4000;

fn boot() -> Kernel {
    start_scheduler(Arch::Arm, KERNEL_ENTRY, IDLE, HELPER)
}

/// A context in which the kernel task has run its first pass.
fn running() -> Kernel {
    let mut k = boot();
    assert_eq!(
        k.kernel(),
        PassOutcome::Completed { reaped: None, switch: true }
    );
    switch(&mut k);
    k
}

/// Carries out the context switch that the last operation asked for.
fn switch(k: &mut Kernel) {
    let next = k.get_next_task().unwrap();
    k.set_cur_task(next);
}

#[test]
fn link_syscalls_does_nothing() {
    link_syscalls();
}

#[test]
fn start_creates_the_kernel_task_only() {
    let k = boot();
    assert_eq!(k.kernel_pid(), 1);
    assert_eq!(k.task_count(), 1);
    assert!(k.has_task(1));
    assert!(!k.is_adopted(1));
    assert_eq!(k.run_queue_len(), 0);
    assert_eq!(k.now(), 0);
    assert_eq!(k.get_cur_task(), None);
    assert_eq!(k.get_next_task(), None);
    assert!(!k.is_halted());
    assert_eq!(k.task_state(1), Some(TaskState::Runnable));
}

#[test]
fn first_pass_adopts_the_kernel_task() {
    let mut k = boot();
    let outcome = k.kernel();
    assert_eq!(outcome, PassOutcome::Completed { reaped: None, switch: true });
    assert!(k.is_adopted(1));
    assert_eq!(k.run_queue_len(), 1);
    assert_eq!(k.get_next_task(), Some(1));
}

#[test]
fn context_switch_before_adoption_falls_back_on_the_kernel_task() {
    let mut k = boot();
    assert!(k.do_context_switch());
    assert_eq!(k.get_next_task(), Some(1));
}

#[test]
fn new_pids_count_up_from_two() {
    let mut k = boot();
    assert_eq!(k.add_task(64, ENTRY, 0), Some(2));
    assert_eq!(k.add_task_static(64, ENTRY, None), Some(3));
    assert_eq!(k.add_task(64, ENTRY, 7), Some(4));
    assert_eq!(k.task_count(), 4);
    assert!(!k.is_adopted(2));
    assert_eq!(k.run_queue_len(), 0);
}

#[test]
fn a_stack_too_small_for_the_first_frame_is_refused() {
    let mut k = boot();
    assert!(!k.can_spawn(16));
    assert_eq!(k.add_task(16, ENTRY, 0), None);
    assert_eq!(k.add_task(0, ENTRY, 0), None);
    assert_eq!(k.sys_task_spawn(16, ENTRY, 0), None);
    assert_eq!(k.task_spawn_block(3, ENTRY, 0), None);
    assert_eq!(k.task_count(), 1);
    assert_eq!(k.sem_count(0), None);
    assert!(k.can_spawn(17));
    assert_eq!(k.add_task(17, ENTRY, 0), Some(2));
    let mut riscv = start_scheduler(Arch::Riscv32, KERNEL_ENTRY, IDLE, HELPER);
    assert_eq!(riscv.add_task(32, ENTRY, 0), None);
    assert_eq!(riscv.add_task(33, ENTRY, 0), Some(2));
}

#[test]
fn three_spawned_tasks_are_scheduled_in_turn() {
    let mut k = boot();
    let a = k.add_task(64, ENTRY, 0).unwrap();
    let b = k.add_task(64, ENTRY, 0).unwrap();
    let c = k.add_task(64, ENTRY, 0).unwrap();
    // Admission; the closing context switch of the pass picks the kernel task itself.
    k.kernel();
    assert_eq!(k.run_queue_len(), 4);
    assert_eq!(k.get_next_task(), Some(1));
    let mut picked = Vec::new();
    for _ in 0..4 {
        assert!(k.sys_yield());
        picked.push(k.get_next_task().unwrap());
    }
    assert_eq!(picked, vec![a, b, c, 1]);
    assert!(a != b && b != c && a != c);
    assert!(k.sys_yield());
    assert_eq!(k.get_next_task(), Some(a));
}

#[test]
fn admission_keeps_the_order_of_creation() {
    let mut k = running();
    let first = k.add_task(64, ENTRY, 0).unwrap();
    let second = k.add_task(64, ENTRY, 0).unwrap();
    k.kernel();
    // The closing context switch of the pass has picked the kernel task itself.
    assert_eq!(k.get_next_task(), Some(1));
    k.sys_yield();
    assert_eq!(k.get_next_task(), Some(first));
    k.sys_yield();
    assert_eq!(k.get_next_task(), Some(second));
}

#[test]
fn sleeper_wakes_only_after_its_deadline() {
    let mut k = running();
    let pid = k.add_task(64, ENTRY, 0).unwrap();
    k.kernel();
    for _ in 0..5 {
        assert!(k.sys_tick());
    }
    assert_eq!(k.now(), 5);
    k.set_cur_task(pid);
    assert_eq!(k.sys_sleep(10), SyscallStep::Done);
    assert_eq!(k.task_state(pid), Some(TaskState::Asleep(15)));
    k.set_cur_task(1);
    for _ in 0..10 {
        k.sys_tick();
        // A sleeping task is never chosen to run.
        assert_eq!(k.get_next_task(), Some(1));
    }
    assert_eq!(k.now(), 15);
    k.kernel();
    assert_eq!(k.task_state(pid), Some(TaskState::Asleep(15)));
    k.sys_tick();
    assert_eq!(k.now(), 16);
    k.kernel();
    assert_eq!(k.task_state(pid), Some(TaskState::Runnable));
}

#[test]
fn mutex_blocks_the_second_taker_until_it_is_given() {
    let mut k = running();
    let a = k.add_task(64, ENTRY, 0).unwrap();
    let b = k.add_task(64, ENTRY, 0).unwrap();
    k.kernel();
    let mutex = k.sem_new_mutex();
    assert_eq!(k.sem_count(mutex), Some(1));

    k.set_cur_task(a);
    assert_eq!(k.sem_take(mutex), TakeAction::Taken);
    assert_eq!(k.sem_count(mutex), Some(0));

    k.set_cur_task(b);
    assert_eq!(k.sem_take(mutex), TakeAction::Block);
    assert_eq!(k.sys_block(mutex), SyscallStep::Done);
    assert_eq!(k.task_state(b), Some(TaskState::Blocking(mutex)));
    assert_eq!(k.task_state(a), Some(TaskState::Runnable));

    // While the mutex is taken a pass leaves the waiter parked.
    k.set_cur_task(1);
    k.kernel();
    assert_eq!(k.task_state(b), Some(TaskState::Blocking(mutex)));

    k.set_cur_task(a);
    k.sem_give(mutex);
    assert_eq!(k.sem_count(mutex), Some(1));
    assert!(k.sem_is_available(mutex));
    // Giving does not wake anybody by itself.
    assert_eq!(k.task_state(b), Some(TaskState::Blocking(mutex)));

    k.set_cur_task(1);
    k.kernel();
    assert_eq!(k.task_state(b), Some(TaskState::Runnable));
    k.set_cur_task(b);
    assert_eq!(k.sem_take(mutex), TakeAction::Taken);
    assert_eq!(k.sem_count(mutex), Some(0));
}

#[test]
fn overwritten_canary_halts_the_system() {
    let mut k = running();
    let victim = k.add_task(64, ENTRY, 0).unwrap();
    let other = k.add_task(64, ENTRY, 0).unwrap();
    k.kernel();
    assert!(k.write_stack(victim, 0, 0xDEAD));
    assert_eq!(k.kernel(), PassOutcome::StackOverflow { pid: victim });
    assert!(k.is_halted());

    // Nothing makes progress any more.
    let now = k.now();
    let next = k.get_next_task();
    assert!(!k.sys_tick());
    assert!(!k.sys_yield());
    assert!(!k.do_context_switch());
    assert_eq!(k.now(), now);
    assert_eq!(k.get_next_task(), next);
    k.set_cur_task(other);
    assert_eq!(k.sys_sleep(1), SyscallStep::Halted);
    assert_eq!(k.sys_block(0), SyscallStep::Halted);
    assert_eq!(k.sys_exit(), SyscallStep::Halted);
    assert!(!k.sleep(1));
    assert!(!k.block(0));
    assert!(!k.remove_task());
    assert_eq!(k.task_state(other), Some(TaskState::Runnable));
    assert_eq!(k.add_task(64, ENTRY, 0), None);
    assert_eq!(k.sys_task_spawn(64, ENTRY, 0), None);
    assert_eq!(k.kernel(), PassOutcome::Halted);
    assert_eq!(k.task_count(), 3);
}

#[test]
fn writes_above_the_canary_do_no_harm() {
    let mut k = running();
    let pid = k.add_task(64, ENTRY, 0).unwrap();
    k.kernel();
    assert!(k.write_stack(pid, 1, 0xDEAD));
    assert!(k.write_stack(pid, 63, 0xDEAD));
    assert!(!k.write_stack(pid, 64, 0xDEAD));
    assert!(!k.write_stack(99, 0, 0xDEAD));
    assert!(k.write_stack(pid, 0, STACK_CANARY));
    assert_eq!(k.kernel(), PassOutcome::Completed { reaped: None, switch: true });
    assert!(!k.is_halted());
}

#[test]
fn a_task_that_was_not_adopted_is_not_checked() {
    let mut k = running();
    let pid = k.add_task(64, ENTRY, 0).unwrap();
    assert!(k.write_stack(pid, 0, 1));
    // The sentinel is checked before the queue is drained.
    assert_eq!(k.kernel(), PassOutcome::Completed { reaped: None, switch: true });
    assert_eq!(k.kernel(), PassOutcome::StackOverflow { pid });
}

#[test]
fn exit_gives_the_completion_semaphore_and_the_task_is_reaped_once() {
    let mut k = running();
    let done = k.sys_task_spawn(64, ENTRY, 0xBEEF).unwrap();
    let pid = 2;
    assert!(k.has_task(pid));
    assert_eq!(k.sem_count(done), Some(0));
    k.kernel();
    k.set_cur_task(pid);
    assert_eq!(k.sys_exit(), SyscallStep::Done);
    assert_eq!(k.task_state(pid), Some(TaskState::Zombie));
    assert_eq!(k.sem_count(done), Some(1));
    assert_eq!(k.run_queue_len(), 2);

    k.set_cur_task(1);
    let outcome = k.kernel();
    assert_eq!(
        outcome,
        PassOutcome::Completed {
            reaped: Some(Reaped { pid, payload: Some(0xBEEF) }),
            switch: true
        }
    );
    assert!(!k.has_task(pid));
    assert_eq!(k.task_state(pid), None);
    assert_eq!(k.task_count(), 1);
    assert_eq!(k.run_queue_len(), 1);
    // There is nothing left to reclaim.
    assert_eq!(k.kernel(), PassOutcome::Completed { reaped: None, switch: true });
    // The identifier is not used again.
    assert_eq!(k.add_task(64, ENTRY, 0), Some(3));
}

#[test]
fn a_task_without_parameter_has_no_payload() {
    let mut k = running();
    k.sys_task_spawn(64, ENTRY, 0).unwrap();
    let plain = k.add_task(64, ENTRY, 5).unwrap();
    k.kernel();
    k.set_cur_task(2);
    assert_eq!(k.sys_exit(), SyscallStep::Done);
    k.set_cur_task(1);
    assert_eq!(
        k.kernel(),
        PassOutcome::Completed { reaped: Some(Reaped { pid: 2, payload: None }), switch: true }
    );
    k.set_cur_task(plain);
    assert_eq!(k.sys_exit(), SyscallStep::Done);
    k.set_cur_task(1);
    assert_eq!(
        k.kernel(),
        PassOutcome::Completed { reaped: Some(Reaped { pid: plain, payload: None }), switch: true }
    );
}

#[test]
fn one_zombie_per_pass_the_last_first() {
    let mut k = running();
    let a = k.add_task(64, ENTRY, 0).unwrap();
    let b = k.add_task(64, ENTRY, 0).unwrap();
    let c = k.add_task(64, ENTRY, 0).unwrap();
    k.kernel();
    for pid in [a, b, c] {
        k.set_cur_task(pid);
        assert!(k.remove_task());
    }
    k.set_cur_task(1);
    let mut order = Vec::new();
    for _ in 0..3 {
        match k.kernel() {
            PassOutcome::Completed { reaped: Some(r), .. } => order.push(r.pid),
            other => panic!("nothing reclaimed: {:?}", other),
        }
    }
    assert_eq!(order, vec![c, b, a]);
    assert_eq!(k.task_count(), 1);
    assert_eq!(k.kernel(), PassOutcome::Completed { reaped: None, switch: true });
}

#[test]
fn zombies_are_never_scheduled() {
    let mut k = running();
    let a = k.add_task(64, ENTRY, 0).unwrap();
    let b = k.add_task(64, ENTRY, 0).unwrap();
    k.kernel();
    k.set_cur_task(a);
    assert!(k.remove_task());
    for _ in 0..6 {
        let next = k.get_next_task().unwrap();
        assert!(next == 1 || next == b);
        k.sys_yield();
    }
}

#[test]
fn the_kernel_task_cannot_be_parked() {
    let mut k = running();
    assert_eq!(k.get_cur_task(), Some(1));
    assert_eq!(k.sys_sleep(100), SyscallStep::Done);
    assert_eq!(k.task_state(1), Some(TaskState::Runnable));
    assert_eq!(k.sys_block(0), SyscallStep::Done);
    assert_eq!(k.task_state(1), Some(TaskState::Runnable));
    assert_eq!(k.sys_exit(), SyscallStep::Done);
    assert_eq!(k.task_state(1), Some(TaskState::Runnable));
    assert_eq!(k.kernel(), PassOutcome::Completed { reaped: None, switch: true });
    assert!(k.has_task(1));
}

#[test]
fn contention_on_the_state_cell_asks_for_a_retry() {
    let mut k = running();
    let pid = k.add_task(64, ENTRY, 0).unwrap();
    k.kernel();
    k.set_cur_task(pid);
    assert!(k.hold_state_guard(pid));
    assert!(!k.hold_state_guard(pid));
    assert_eq!(k.task_state(pid), None);
    assert_eq!(k.sys_sleep(3), SyscallStep::Retry);
    assert_eq!(k.sys_exit(), SyscallStep::Retry);
    assert!(!k.remove_task());
    // The scheduler takes a task in transition for runnable.
    k.sys_yield();
    k.sys_yield();
    let mut seen = Vec::new();
    for _ in 0..2 {
        seen.push(k.get_next_task().unwrap());
        k.sys_yield();
    }
    seen.sort();
    assert_eq!(seen, vec![1, pid]);
    k.release_state_guard(pid);
    assert_eq!(k.task_state(pid), Some(TaskState::Runnable));
    assert_eq!(k.sys_sleep(3), SyscallStep::Done);
    assert_eq!(k.task_state(pid), Some(TaskState::Asleep(3)));
}

#[test]
fn block_does_not_wait_for_a_wakeup_that_has_happened() {
    let mut k = running();
    let pid = k.add_task(64, ENTRY, 0).unwrap();
    k.kernel();
    let free = k.sem_new(1);
    let taken = k.sem_new(0);
    k.set_cur_task(pid);
    assert!(k.hold_state_guard(pid));
    assert_eq!(k.sys_block(taken), SyscallStep::Retry);
    assert_eq!(k.sys_block(free), SyscallStep::Done);
    k.release_state_guard(pid);
    assert_eq!(k.task_state(pid), Some(TaskState::Runnable));
}

#[test]
fn a_pass_leaves_a_task_in_transition_alone() {
    let mut k = running();
    let pid = k.add_task(64, ENTRY, 0).unwrap();
    k.kernel();
    k.set_cur_task(pid);
    assert_eq!(k.sys_sleep(0), SyscallStep::Done);
    k.sys_tick();
    assert!(k.hold_state_guard(pid));
    k.set_cur_task(1);
    k.kernel();
    k.release_state_guard(pid);
    assert_eq!(k.task_state(pid), Some(TaskState::Asleep(0)));
    k.kernel();
    assert_eq!(k.task_state(pid), Some(TaskState::Runnable));
}

#[test]
fn the_boot_context_has_a_state_cell_of_its_own() {
    let mut k = boot();
    assert_eq!(k.get_cur_task(), None);
    assert_eq!(k.sys_sleep(5), SyscallStep::Done);
    assert_eq!(k.task_state(1), Some(TaskState::Runnable));
    assert_eq!(k.sys_exit(), SyscallStep::Done);
    assert_eq!(k.task_count(), 1);
}

#[test]
fn spawn_block_parks_the_spawner_on_the_completion_semaphore() {
    let mut k = running();
    let parent = k.add_task(64, ENTRY, 0).unwrap();
    k.kernel();
    k.set_cur_task(parent);
    let (done, step) = k.task_spawn_block(64, ENTRY, 0).unwrap();
    assert_eq!(step, SyscallStep::Done);
    assert_eq!(k.task_state(parent), Some(TaskState::Blocking(done)));
    let child = parent + 1;
    k.set_cur_task(1);
    k.kernel();
    assert_eq!(k.task_state(parent), Some(TaskState::Blocking(done)));
    k.set_cur_task(child);
    assert_eq!(k.sys_exit(), SyscallStep::Done);
    k.set_cur_task(1);
    k.kernel();
    assert_eq!(k.task_state(parent), Some(TaskState::Runnable));
    k.set_cur_task(parent);
    assert_eq!(k.sem_take(done), TakeAction::Taken);
}

#[test]
fn semaphore_handles_that_name_nothing() {
    let mut k = running();
    assert!(!k.sem_is_available(0));
    assert!(!k.sem_try_take(0));
    assert_eq!(k.sem_take(0), TakeAction::Block);
    k.sem_give(0);
    assert_eq!(k.sem_count(0), None);
    let first = k.sem_new(2);
    assert_eq!(first, 0);
    assert!(k.sem_try_take(first));
    assert!(k.sem_try_take(first));
    assert!(!k.sem_try_take(first));
    k.sem_give(first);
    assert_eq!(k.sem_count(first), Some(1));
    assert_eq!(k.sem_new_mutex(), 1);
}

#[test]
fn blocking_on_a_semaphore_that_does_not_exist_never_ends() {
    let mut k = running();
    let pid = k.add_task(64, ENTRY, 0).unwrap();
    k.kernel();
    k.set_cur_task(pid);
    assert_eq!(k.sys_block(42), SyscallStep::Done);
    k.set_cur_task(1);
    k.kernel();
    assert_eq!(k.task_state(pid), Some(TaskState::Blocking(42)));
}

#[test]
fn sleep_deadline_wraps_around() {
    let mut k = running();
    let pid = k.add_task(64, ENTRY, 0).unwrap();
    k.kernel();
    k.sys_tick();
    k.sys_tick();
    k.set_cur_task(pid);
    assert!(k.sleep(u64::MAX));
    assert_eq!(k.task_state(pid), Some(TaskState::Asleep(1)));
}

#[test]
fn default_stack_size_is_exposed() {
    assert_eq!(DEFAULT_STACK_SIZE, 1536);
    assert_eq!(STACK_CANARY, 0xC0DE5AFE);
    assert_eq!(INIT_XPSR, 0x0100_0000);
}

#[test]
fn the_kernel_task_starts_in_its_entry_function() {
    let k = boot();
    let top = DEFAULT_STACK_SIZE;
    assert_eq!(k.read_stack(1, 0), Some(STACK_CANARY));
    assert_eq!(k.read_stack(1, 1), Some(0));
    assert_eq!(k.read_stack(1, top - 1), Some(INIT_XPSR));
    assert_eq!(k.read_stack(1, top - 2), Some(KERNEL_ENTRY));
    assert_eq!(k.read_stack(1, top - 3), Some(IDLE));
    for register in 4..=16 {
        assert_eq!(k.read_stack(1, top - register), Some(0));
    }
    assert_eq!(k.read_stack(1, top - 17), Some(0));
    assert_eq!(k.read_stack(1, top), None);
    assert_eq!(k.read_stack(9, 0), None);
}

#[test]
fn a_spawned_task_starts_in_the_helper() {
    let mut k = running();
    let done = k.sys_task_spawn(40, ENTRY, 0xBEEF).unwrap();
    assert_eq!(k.read_stack(2, 0), Some(STACK_CANARY));
    assert_eq!(k.read_stack(2, 39), Some(INIT_XPSR));
    assert_eq!(k.read_stack(2, 38), Some(HELPER));
    assert_eq!(k.read_stack(2, 37), Some(IDLE));
    assert_eq!(k.read_stack(2, 36), Some(0xBEEF));
    assert_eq!(k.read_stack(2, 24), Some(0xBEEF));
    assert_eq!(k.read_stack(2, 23), Some(0));
    assert_eq!(k.task_helper(), HELPER);
    k.kernel();
    assert_eq!(k.cur_task_info(), None);
    k.set_cur_task(2);
    assert_eq!(
        k.cur_task_info(),
        Some(NewTaskInfo { ep: ENTRY, param: 0xBEEF, sem: done })
    );
}

#[test]
fn a_plain_task_starts_in_its_entry_function() {
    let mut k = running();
    let pid = k.add_task(20, ENTRY, 7).unwrap();
    assert_eq!(k.read_stack(pid, 18), Some(ENTRY));
    assert_eq!(k.read_stack(pid, 4), Some(7));
    k.set_cur_task(pid);
    assert_eq!(k.cur_task_info(), None);
}
