//! The kernel context: every piece of kernel state in one value, and the
//! operations that the timer interrupt, the trap handler and the kernel task
//! perform on it.
//!
//! Tasks live in a table from the moment they are created until the kernel
//! task reclaims them; everything else names them by process identifier.
//! A new task waits in the admission queue until the kernel task adopts it
//! into its list and into the run queue. Semaphores that tasks block on live
//! in a second table and are named by their position in it.

use vstd::prelude::*;
use crossbeam_queue::SegQueue;
use crate::consistency::{empty_context, initial_context, lemma_has_task, lemma_wf_context_switch, lemma_wf_initial, lemma_wf_preserved, lemma_wf_spawn, lemma_wf_with_task};
use crate::arch::{frame_len, frame_words, initial_frame, set_canary, set_initial_stack, Arch, STACK_CANARY};
use crate::queue::{queue_is_empty, queue_new, queue_pop, queue_push, queued};
use crate::schedule::{runnable_in, RoundRobin, RoundRobinView};
use crate::semaphore::{Semaphore, SemaphoreView, TakeAction};
use crate::spinlock::{Spinlock, SpinlockView};
use crate::task::{find_task, has_task, pids, task_index, views, NewTaskInfo, Task, TaskView, DEFAULT_STACK_SIZE};
use crate::task_state::{TaskState, TaskStateStruct, TaskStateView};
use crate::tick::TickCounter;

verus! {

/// The process identifier of the boot context, which runs before the first
/// context switch and is not a task.
pub const PLACEHOLDER_PID: usize = 0;

/// The views of the semaphores in a table, in table order.
pub open spec fn sem_views(semaphores: Seq<Semaphore>) -> Seq<SemaphoreView> {
    semaphores.map_values(|s: Semaphore| s@)
}

/// What the kernel context is, for contracts.
pub struct KernelView {
    /// The processor whose frame layout new stacks get.
    pub arch: Arch,
    /// Where a task that returns from its entry function ends up.
    pub idle: usize,
    /// Where a spawned task starts: the routine that runs the task's entry
    /// function on its parameter and ends the task when that returns.
    pub helper: usize,
    /// What the clock reads.
    pub now: int,
    /// The state cell of the boot context.
    pub placeholder: TaskStateView,
    /// The scheduler's run queue.
    pub run_queue: RoundRobinView,
    /// The live tasks, oldest first. Those marked adopted, in this order,
    /// form the kernel task's list.
    pub tasks: Seq<TaskView>,
    /// The identifiers in the admission queue, oldest first.
    pub pending: Seq<usize>,
    /// The semaphores that tasks can block on; a handle is a position here.
    pub semaphores: Seq<SemaphoreView>,
    /// The identifier of the kernel task.
    pub kernel_task: usize,
    /// The task chosen to run after the next context switch.
    pub next_task: Option<usize>,
    /// The task that is running; `None` while the boot context is.
    pub cur_task: Option<usize>,
    /// The identifier that the next new task gets.
    pub next_pid: usize,
    /// The lock around the scheduling decision.
    pub cs_lock: SpinlockView,
    /// Whether a stack overflow has stopped the system.
    pub halted: bool,
}

/// A stack as a new task gets it: all zero, with the sentinel in the lowest
/// word and the initial frame on top.
pub open spec fn fresh_stack(arch: Arch, words: usize, entry: usize, param: usize, idle: usize) -> Seq<
    usize,
> {
    let sp = (words - frame_words(arch)) as usize;
    Seq::new(sp as nat, |i: int| 0usize).update(0, STACK_CANARY) + initial_frame(
        arch,
        entry,
        param,
        idle,
        sp,
    )
}

impl KernelView {
    /// The identifier under which the running context takes locks: that of
    /// the running task, or of the boot context.
    pub open spec fn cur_pid(self) -> usize {
        match self.cur_task {
            Some(pid) => pid,
            None => PLACEHOLDER_PID,
        }
    }

    /// Whether a task with `words` words of stack can be created: the system
    /// runs, the stack holds the initial frame above the sentinel, and an
    /// identifier is left.
    pub open spec fn can_spawn(self, words: usize) -> bool {
        !self.halted && words > frame_words(self.arch) && self.next_pid < usize::MAX
    }

    /// The task that a successful creation adds to the table.
    pub open spec fn new_task(
        self,
        words: usize,
        entry: usize,
        param: usize,
        info: Option<NewTaskInfo>,
        dynamic: bool,
    ) -> TaskView {
        TaskView {
            sp: (words - frame_words(self.arch)) as usize,
            canary: 0,
            stack: fresh_stack(self.arch, words, entry, param, self.idle),
            dynamic,
            task_info: info,
            state: TaskStateView { state: TaskState::Runnable, held: false },
            pid: self.next_pid,
            adopted: false,
        }
    }

    /// The context after a task has been created and queued for adoption;
    /// unchanged where no task can be created.
    pub open spec fn after_spawn(
        self,
        words: usize,
        entry: usize,
        param: usize,
        info: Option<NewTaskInfo>,
        dynamic: bool,
    ) -> KernelView {
        if self.can_spawn(words) {
            KernelView {
                tasks: self.tasks.push(self.new_task(words, entry, param, info, dynamic)),
                pending: self.pending.push(self.next_pid),
                next_pid: (self.next_pid + 1) as usize,
                ..self
            }
        } else {
            self
        }
    }
}

/// The kernel context.
pub struct Kernel {
    arch: Arch,
    idle: usize,
    helper: usize,
    ticks: TickCounter,
    placeholder: TaskStateStruct,
    scheduler: RoundRobin,
    tasks: Vec<Task>,
    new_task_queue: SegQueue<usize>,
    semaphores: Vec<Semaphore>,
    kernel_task: usize,
    next_task: Option<usize>,
    cur_task: Option<usize>,
    next_pid: usize,
    cs_lock: Spinlock,
    halted: bool,
}

impl View for Kernel {
    type V = KernelView;

    closed spec fn view(&self) -> KernelView {
        KernelView {
            arch: self.arch,
            idle: self.idle,
            helper: self.helper,
            now: self.ticks@,
            placeholder: self.placeholder@,
            run_queue: self.scheduler@,
            tasks: views(self.tasks@),
            pending: queued(self.new_task_queue),
            semaphores: sem_views(self.semaphores@),
            kernel_task: self.kernel_task,
            next_task: self.next_task,
            cur_task: self.cur_task,
            next_pid: self.next_pid,
            cs_lock: self.cs_lock@,
            halted: self.halted,
        }
    }
}

impl Kernel {
    /// Hands out the next process identifier.
    fn get_new_pid(&mut self) -> (pid: usize)
        requires
            old(self)@.next_pid < usize::MAX,
        ensures
            pid == old(self)@.next_pid,
            final(self)@ == (KernelView { next_pid: (pid + 1) as usize, ..old(self)@ }),
    {
        let pid: usize = self.next_pid;
        self.next_pid = pid + 1;
        pid
    }

    /// Creates a task and queues it for adoption by the kernel task.
    pub(crate) fn spawn(
        &mut self,
        stack_size: usize,
        entry_point: usize,
        param: usize,
        info: Option<NewTaskInfo>,
        dynamic: bool,
    ) -> (pid: Option<usize>)
        ensures
            pid == if old(self)@.can_spawn(stack_size) {
                Some(old(self)@.next_pid)
            } else {
                None
            },
            final(self)@ == old(self)@.after_spawn(stack_size, entry_point, param, info, dynamic),
            old(self)@.wf() ==> final(self)@.wf(),
    {
        proof {
            if self@.wf() {
                lemma_wf_spawn(self@, stack_size, entry_point, param, info, dynamic);
            }
        }
        if self.halted || stack_size <= frame_len(self.arch) || self.next_pid == usize::MAX {
            return None;
        }
        let mut stack: Vec<usize> = vec![0usize; stack_size];
        let canary: usize = set_canary(&mut stack);
        let sp: usize = set_initial_stack(self.arch, &mut stack, entry_point, param, self.idle);
        assert(stack@ =~= fresh_stack(self.arch, stack_size, entry_point, param, self.idle));
        let ghost before = self@;
        let pid: usize = self.get_new_pid();
        let new_task = Task::new(pid, stack, canary, sp, dynamic, info);
        self.tasks.push(new_task);
        queue_push(&mut self.new_task_queue, pid);
        assert(views(self.tasks@) =~= before.tasks.push(
            before.new_task(stack_size, entry_point, param, info, dynamic),
        ));
        Some(pid)
    }

    /// Creates a task with a heap-backed stack of `stack_size` words that
    /// starts at `entry_point` with `param` as its argument, and queues it
    /// for adoption. Returns its identifier, or `None`, with nothing
    /// changed, if no task can be created.
    pub fn add_task(&mut self, stack_size: usize, entry_point: usize, param: usize) -> (pid: Option<
        usize,
    >)
        ensures
            pid == if old(self)@.can_spawn(stack_size) {
                Some(old(self)@.next_pid)
            } else {
                None
            },
            final(self)@ == old(self)@.after_spawn(stack_size, entry_point, param, None, true),
            old(self)@.wf() ==> final(self)@.wf(),
    {
        self.spawn(stack_size, entry_point, param, None, true)
    }

    /// Creates a task on a static stack region of `stack_size` words. A task
    /// without parameter gets a null argument.
    pub fn add_task_static(
        &mut self,
        stack_size: usize,
        entry_point: usize,
        param: Option<usize>,
    ) -> (pid: Option<usize>)
        ensures
            pid == if old(self)@.can_spawn(stack_size) {
                Some(old(self)@.next_pid)
            } else {
                None
            },
            final(self)@ == old(self)@.after_spawn(
                stack_size,
                entry_point,
                match param {
                    Some(p) => p,
                    None => 0,
                },
                None,
                false,
            ),
            old(self)@.wf() ==> final(self)@.wf(),
    {
        let param_ptr: usize = match param {
            Some(p) => p,
            None => 0,
        };
        self.spawn(stack_size, entry_point, param_ptr, None, false)
    }
}

/// The tick at which a sleep of `ticks` ticks that starts at `now` ends. A
/// sum beyond 64 bits wraps around.
pub open spec fn deadline(now: int, ticks: u64) -> u64 {
    if now + ticks > u64::MAX {
        (now + ticks - 0x1_0000_0000_0000_0000) as u64
    } else {
        (now + ticks) as u64
    }
}

impl KernelView {
    /// Whether the running task is the kernel task.
    pub open spec fn cur_is_kernel(self) -> bool {
        self.cur_task == Some(self.kernel_task)
    }

    /// Whether the running context is a task in the table.
    pub open spec fn cur_in_table(self) -> bool {
        self.cur_task is Some && has_task(self.tasks, self.cur_task->0)
    }

    /// The state cell of the running context: that of the running task, or
    /// the placeholder cell while no live task is running.
    pub open spec fn cur_state(self) -> TaskStateView {
        if self.cur_in_table() {
            self.tasks[task_index(self.tasks, self.cur_task->0)].state
        } else {
            self.placeholder
        }
    }

    /// Whether an attempt to park the running context gets through. The
    /// kernel task is exempt from parking, which counts as getting through.
    pub open spec fn park_stored(self) -> bool {
        self.cur_is_kernel() || !self.cur_state().held
    }

    /// The context after an attempt to store `new_state` for the running
    /// context. Nothing changes for the kernel task, which always stays
    /// runnable, nor while the guard of the state cell is held.
    pub open spec fn after_park(self, new_state: TaskState) -> KernelView {
        if self.cur_is_kernel() || self.cur_state().held {
            self
        } else if self.cur_in_table() {
            let i = task_index(self.tasks, self.cur_task->0);
            KernelView {
                tasks: self.tasks.update(
                    i,
                    self.tasks[i].with_state(TaskStateView { state: new_state, held: false }),
                ),
                ..self
            }
        } else {
            KernelView { placeholder: TaskStateView { state: new_state, held: false }, ..self }
        }
    }

    /// Whether the task chosen to run next is referred to by nothing else
    /// any more: it has been reclaimed and is not the kernel task. Choosing
    /// another task would drop it while it may still be in use.
    pub open spec fn next_is_last_reference(self) -> bool {
        self.next_task is Some && !has_task(self.tasks, self.next_task->0) && self.next_task->0
            != self.kernel_task
    }

    /// The context after a scheduling decision: the run queue has been
    /// scanned and the task it picked, or else the kernel task, is to run
    /// next.
    pub open spec fn after_scheduler(self) -> KernelView {
        if self.next_is_last_reference() {
            self
        } else {
            KernelView {
                run_queue: self.run_queue.after_next(runnable_in(self.tasks)),
                next_task: Some(
                    match self.run_queue.pick(runnable_in(self.tasks)) {
                        Some(pid) => pid,
                        None => self.kernel_task,
                    },
                ),
                ..self
            }
        }
    }

    /// Whether a request for a context switch is carried out: the system
    /// runs and no scheduling decision is under way.
    pub open spec fn switches(self) -> bool {
        !self.halted && self.cs_lock.free()
    }

    /// The context after a request for a context switch.
    pub open spec fn after_context_switch(self) -> KernelView {
        if self.switches() {
            KernelView { cs_lock: SpinlockView { depth: 0, owner: 0 }, ..self.after_scheduler() }
        } else {
            self
        }
    }

    /// The context after a timer tick. A halted system does not count.
    pub open spec fn after_tick(self) -> KernelView {
        if self.halted {
            self
        } else {
            (KernelView {
                now: (self.now + 1) % 0x1_0000_0000_0000_0000,
                ..self
            }).after_context_switch()
        }
    }

    /// The context after the running task has asked to sleep for `ticks`
    /// ticks.
    pub open spec fn after_sleep(self, ticks: u64) -> KernelView {
        if self.halted {
            self
        } else {
            self.after_park(TaskState::Asleep(deadline(self.now, ticks))).after_context_switch()
        }
    }

    /// The context after the running task has asked to block on `sem`.
    pub open spec fn after_block(self, sem: usize) -> KernelView {
        if self.halted {
            self
        } else {
            self.after_park(TaskState::Blocking(sem)).after_context_switch()
        }
    }

    /// The context after the running task has asked to be removed.
    pub open spec fn after_remove_task(self) -> KernelView {
        if self.halted {
            self
        } else {
            self.after_park(TaskState::Zombie).after_context_switch()
        }
    }
}

/// Builds the kernel context and creates the kernel task, which waits in the
/// admission queue until its own first pass adopts it.
///
/// `kernel_entry` is the entry point of the kernel task, `idle` the place
/// where tasks end up that return from their entry function, and `helper`
/// the routine in which spawned tasks start. Enabling the tick interrupt is
/// left to the caller.
pub fn start_scheduler(arch: Arch, kernel_entry: usize, idle: usize, helper: usize) -> (kernel: Kernel)
    ensures
        kernel@ == initial_context(arch, kernel_entry, idle, helper),
        kernel@.wf(),
{
    crate::syscall::link_syscalls();
    let mut kernel = Kernel {
        arch,
        idle,
        helper,
        ticks: TickCounter::new(),
        placeholder: TaskStateStruct::new(),
        scheduler: RoundRobin::new(),
        tasks: Vec::new(),
        new_task_queue: queue_new(),
        semaphores: Vec::new(),
        kernel_task: 1,
        next_task: None,
        cur_task: None,
        next_pid: 1,
        cs_lock: Spinlock::new(),
        halted: false,
    };
    assert(views(kernel.tasks@) =~= Seq::<TaskView>::empty());
    assert(sem_views(kernel.semaphores@) =~= Seq::<SemaphoreView>::empty());
    assert(kernel@ == empty_context(arch, idle, helper));
    let _ = kernel.add_task_static(DEFAULT_STACK_SIZE, kernel_entry, None);
    proof {
        lemma_wf_initial(arch, kernel_entry, idle, helper);
    }
    kernel
}

impl Kernel {
    /// The identifier of the running task, or `None` while the boot context
    /// is running.
    pub fn get_cur_task(&self) -> (pid: Option<usize>)
        ensures
            pid == self@.cur_task,
    {
        self.cur_task
    }

    /// Records which task the processor has been switched to.
    pub fn set_cur_task(&mut self, pid: usize)
        ensures
            final(self)@ == (KernelView { cur_task: Some(pid), ..old(self)@ }),
            old(self)@.wf() ==> final(self)@.wf(),
    {
        proof {
            if self@.wf() {
                lemma_wf_preserved(self@, 0, 0, 0, 0, 0, SemaphoreView { count: 0, mutex: false }, pid);
            }
        }
        self.cur_task = Some(pid);
    }

    /// The identifier of the task that is to run after the next context
    /// switch, or `None` before the first scheduling decision.
    pub fn get_next_task(&self) -> (pid: Option<usize>)
        ensures
            pid == self@.next_task,
    {
        self.next_task
    }

    /// The identifier under which the running context takes locks.
    pub fn cur_pid(&self) -> (pid: usize)
        ensures
            pid == self@.cur_pid(),
    {
        match self.cur_task {
            Some(pid) => pid,
            None => PLACEHOLDER_PID,
        }
    }

    /// Decides which task runs next.
    fn scheduler(&mut self)
        ensures
            final(self)@ == old(self)@.after_scheduler(),
    {
        // Make sure we don't drop a task that nothing else refers to.
        if let Some(next) = self.next_task {
            if next != self.kernel_task && find_task(&self.tasks, next).is_none() {
                return;
            }
        }
        // Find the next task to run if there is one.
        match self.scheduler.next(&self.tasks) {
            Some(pid) => {
                self.next_task = Some(pid);
            },
            None => {
                self.next_task = Some(self.kernel_task);
            },
        }
    }

    /// Requests a context switch: unless a scheduling decision is already
    /// under way, decides which task runs next and returns true, which
    /// obliges the caller to trigger the switch. Does nothing and returns
    /// false once the system is halted.
    pub fn do_context_switch(&mut self) -> (triggered: bool)
        ensures
            triggered == old(self)@.switches(),
            final(self)@ == old(self)@.after_context_switch(),
            old(self)@.wf() ==> final(self)@.wf(),
    {
        proof {
            if self@.wf() {
                lemma_wf_context_switch(self@);
            }
        }
        if self.halted {
            return false;
        }
        let pid: usize = self.cur_pid();
        if self.cs_lock.try_take(pid) {
            self.scheduler();
            self.cs_lock.give(pid);
            true
        } else {
            false
        }
    }

    /// The timer interrupt: counts one tick and requests a context switch.
    /// Returns whether the switch has to be triggered.
    pub fn sys_tick(&mut self) -> (triggered: bool)
        ensures
            triggered == old(self)@.switches(),
            final(self)@ == old(self)@.after_tick(),
            old(self)@.wf() ==> final(self)@.wf(),
    {
        proof {
            if self@.wf() {
                lemma_wf_preserved(self@, 0, 0, 0, 0, 0, SemaphoreView { count: 0, mutex: false }, 0);
            }
        }
        if self.halted {
            return false;
        }
        self.ticks.inc();
        self.do_context_switch()
    }

    /// Tries to store `new_state` for the running context and returns
    /// whether that got through.
    fn park(&mut self, new_state: TaskState) -> (stored: bool)
        ensures
            stored == old(self)@.park_stored(),
            final(self)@ == old(self)@.after_park(new_state),
    {
        let ghost before = self@;
        match self.cur_task {
            Some(pid) => {
                if pid == self.kernel_task {
                    return true;
                }
                match find_task(&self.tasks, pid) {
                    Some(i) => {
                        assert(views(self.tasks@)[i as int] == self.tasks@[i as int]@);
                        let stored: bool = self.tasks[i].try_set_state(new_state);
                        assert(views(self.tasks@) =~= if stored {
                            before.tasks.update(
                                i as int,
                                before.tasks[i as int].with_state(
                                    TaskStateView { state: new_state, held: false },
                                ),
                            )
                        } else {
                            before.tasks
                        });
                        stored
                    },
                    None => self.placeholder.try_set(new_state),
                }
            },
            None => self.placeholder.try_set(new_state),
        }
    }

    /// Puts the running task to sleep until the clock reads more than
    /// `sleep_ticks` ticks from now, and requests a context switch. Returns
    /// false if the state could not be stored because its guard was held;
    /// the caller then yields and tries again.
    pub fn sleep(&mut self, sleep_ticks: u64) -> (stored: bool)
        ensures
            stored == (!old(self)@.halted && old(self)@.park_stored()),
            final(self)@ == old(self)@.after_sleep(sleep_ticks),
            old(self)@.wf() ==> final(self)@.wf(),
    {
        proof {
            if self@.wf() {
                lemma_wf_preserved(self@, sleep_ticks, 0, 0, 0, 0, SemaphoreView { count: 0, mutex: false }, 0);
            }
        }
        if self.halted {
            return false;
        }
        let wake_tick: u64 = self.ticks.get().wrapping_add(sleep_ticks);
        let stored: bool = self.park(TaskState::Asleep(wake_tick));
        self.do_context_switch();
        stored
    }

    /// Has the running task wait until the semaphore `sem` is available, and
    /// requests a context switch. Returns false if the state could not be
    /// stored because its guard was held.
    pub fn block(&mut self, sem: usize) -> (stored: bool)
        ensures
            stored == (!old(self)@.halted && old(self)@.park_stored()),
            final(self)@ == old(self)@.after_block(sem),
            old(self)@.wf() ==> final(self)@.wf(),
    {
        proof {
            if self@.wf() {
                lemma_wf_preserved(self@, 0, sem, 0, 0, 0, SemaphoreView { count: 0, mutex: false }, 0);
            }
        }
        if self.halted {
            return false;
        }
        let stored: bool = self.park(TaskState::Blocking(sem));
        self.do_context_switch();
        stored
    }

    /// Marks the running task as finished, for the kernel task to reclaim,
    /// and requests a context switch. Returns false if the state could not
    /// be stored because its guard was held.
    pub fn remove_task(&mut self) -> (stored: bool)
        ensures
            stored == (!old(self)@.halted && old(self)@.park_stored()),
            final(self)@ == old(self)@.after_remove_task(),
            old(self)@.wf() ==> final(self)@.wf(),
    {
        proof {
            if self@.wf() {
                lemma_wf_preserved(self@, 0, 0, 0, 0, 0, SemaphoreView { count: 0, mutex: false }, 0);
            }
        }
        if self.halted {
            return false;
        }
        let stored: bool = self.park(TaskState::Zombie);
        self.do_context_switch();
        stored
    }
}

/// A task that the kernel task has reclaimed.
#[derive(Clone, Copy, PartialEq, Eq, Structural, Debug)]
pub struct Reaped {
    /// The identifier of the task.
    pub pid: usize,
    /// The address of its boxed parameter, which the caller now has to free.
    pub payload: Option<usize>,
}

/// How a pass of the kernel task ended.
#[derive(Clone, Copy, PartialEq, Eq, Structural, Debug)]
pub enum PassOutcome {
    /// The system had been halted before; nothing was done.
    Halted,
    /// The sentinel of the task `pid` was found overwritten. The system is
    /// halted from now on; the caller reports the overflow.
    StackOverflow { pid: usize },
    /// The pass ran to its end. At most one task was reclaimed; `switch`
    /// says whether the closing context switch has to be triggered.
    Completed { reaped: Option<Reaped>, switch: bool },
}

/// Whether the kernel task finds the sentinel of the task overwritten.
pub open spec fn overflowed(t: TaskView) -> bool {
    t.adopted && !t.canary_intact()
}

/// Whether the kernel task finds the task finished.
pub open spec fn is_zombie(t: TaskView) -> bool {
    t.adopted && t.observed() is Zombie
}

/// Position of the first task at or after `from` whose sentinel is
/// overwritten, or the length of the table if there is none.
pub open spec fn first_overflow_from(tasks: Seq<TaskView>, from: int) -> int
    decreases tasks.len() - from,
{
    if from < 0 || from >= tasks.len() {
        tasks.len() as int
    } else if overflowed(tasks[from]) {
        from
    } else {
        first_overflow_from(tasks, from + 1)
    }
}

/// Position of the last finished task before `upto`, or `-1` if there is
/// none.
pub open spec fn last_zombie(tasks: Seq<TaskView>, upto: int) -> int
    decreases upto,
{
    if upto <= 0 || upto > tasks.len() {
        -1
    } else if is_zombie(tasks[upto - 1]) {
        upto - 1
    } else {
        last_zombie(tasks, upto - 1)
    }
}

/// Whether a parked task is due: its sleep has ended, which takes a clock
/// that reads strictly more than the deadline, or the semaphore it waits for
/// can be taken.
pub open spec fn wakes(state: TaskState, now: int, semaphores: Seq<SemaphoreView>) -> bool {
    match state {
        TaskState::Asleep(wake_tick) => wake_tick < now,
        TaskState::Blocking(sem) => sem < semaphores.len() && semaphores[sem as int].available(),
        _ => false,
    }
}

/// A task after the kernel task has looked at it: runnable again if it was
/// parked and is due, and otherwise as before. A task that is not adopted,
/// or whose state cannot be read, is left alone.
pub open spec fn promoted(t: TaskView, now: int, semaphores: Seq<SemaphoreView>) -> TaskView {
    if t.adopted && wakes(t.observed(), now, semaphores) {
        t.with_state(TaskStateView { state: TaskState::Runnable, held: false })
    } else {
        t
    }
}

/// The table after the tasks named in `admitted` have been adopted.
pub open spec fn adopted_all(tasks: Seq<TaskView>, admitted: Seq<usize>) -> Seq<TaskView> {
    Seq::new(
        tasks.len(),
        |i: int|
            TaskView {
                adopted: tasks[i].adopted || (admitted.contains(tasks[i].pid) && task_index(
                    tasks,
                    tasks[i].pid,
                ) == i),
                ..tasks[i]
            },
    )
}

impl KernelView {
    /// Whether some adopted task has overrun its stack.
    pub open spec fn overflow_detected(self) -> bool {
        first_overflow_from(self.tasks, 0) < self.tasks.len()
    }

    /// The context after the admission queue has been drained: every waiting
    /// task is adopted and appended to the run queue, in the order in which
    /// the tasks were queued.
    pub open spec fn after_admission(self) -> KernelView {
        KernelView {
            tasks: adopted_all(self.tasks, self.pending),
            pending: Seq::<usize>::empty(),
            run_queue: RoundRobinView {
                queue: self.run_queue.queue + self.pending,
                cursor: self.run_queue.cursor,
                busy: self.run_queue.busy && self.pending.len() == 0,
            },
            ..self
        }
    }

    /// The context after every adopted task that is due has been made
    /// runnable.
    pub open spec fn after_promotion(self) -> KernelView {
        KernelView {
            tasks: self.tasks.map_values(|t: TaskView| promoted(t, self.now, self.semaphores)),
            ..self
        }
    }

    /// The task that a pass reclaims: the last finished one in the list.
    pub open spec fn reaped(self) -> Option<Reaped> {
        let z = last_zombie(self.tasks, self.tasks.len() as int);
        if z >= 0 {
            Some(Reaped { pid: self.tasks[z].pid, payload: self.tasks[z].payload() })
        } else {
            None
        }
    }

    /// The context after that task has been taken out of the table and out
    /// of the run queue.
    pub open spec fn after_reap(self) -> KernelView {
        let z = last_zombie(self.tasks, self.tasks.len() as int);
        if z >= 0 {
            KernelView {
                tasks: self.tasks.remove(z),
                run_queue: self.run_queue.after_remove(self.tasks[z].pid),
                ..self
            }
        } else {
            self
        }
    }

    /// The context after admission, promotion and reclamation.
    pub open spec fn after_pass(self) -> KernelView {
        self.after_admission().after_promotion().after_reap()
    }

    /// The context after one pass of the kernel task.
    pub open spec fn after_kernel(self) -> KernelView {
        if self.halted {
            self
        } else if self.overflow_detected() {
            KernelView { halted: true, ..self }
        } else {
            self.after_pass().after_context_switch()
        }
    }

    /// How one pass of the kernel task ends.
    pub open spec fn kernel_outcome(self) -> PassOutcome {
        if self.halted {
            PassOutcome::Halted
        } else if self.overflow_detected() {
            PassOutcome::StackOverflow { pid: self.tasks[first_overflow_from(self.tasks, 0)].pid }
        } else {
            PassOutcome::Completed {
                reaped: self.after_admission().after_promotion().reaped(),
                switch: self.after_pass().switches(),
            }
        }
    }
}

/// Adoption changes no identifier.
proof fn lemma_adopted_pids(tasks: Seq<TaskView>, admitted: Seq<usize>)
    ensures
        pids(adopted_all(tasks, admitted)) == pids(tasks),
        adopted_all(tasks, admitted).len() == tasks.len(),
{
    assert(pids(adopted_all(tasks, admitted)) =~= pids(tasks));
}

/// The last finished task before `upto` depends only on the tasks before
/// `upto`.
proof fn lemma_last_zombie_prefix(a: Seq<TaskView>, b: Seq<TaskView>, upto: int)
    requires
        a.len() == b.len(),
        0 <= upto <= a.len(),
        forall|j: int| 0 <= j < upto ==> a[j] == b[j],
    ensures
        last_zombie(a, upto) == last_zombie(b, upto),
    decreases upto,
{
    if upto > 0 {
        lemma_last_zombie_prefix(a, b, upto - 1);
    }
}

/// What `last_zombie` finds.
pub proof fn lemma_last_zombie(tasks: Seq<TaskView>, upto: int)
    requires
        0 <= upto <= tasks.len(),
    ensures
        -1 <= last_zombie(tasks, upto) < upto,
        last_zombie(tasks, upto) >= 0 ==> is_zombie(tasks[last_zombie(tasks, upto)]),
        forall|j: int| last_zombie(tasks, upto) < j < upto ==> !is_zombie(tasks[j]),
    decreases upto,
{
    if upto > 0 && !is_zombie(tasks[upto - 1]) {
        lemma_last_zombie(tasks, upto - 1);
    }
}

/// What `first_overflow_from` finds.
pub proof fn lemma_first_overflow(tasks: Seq<TaskView>, from: int)
    requires
        0 <= from <= tasks.len(),
    ensures
        from <= first_overflow_from(tasks, from) <= tasks.len(),
        first_overflow_from(tasks, from) < tasks.len() ==> overflowed(
            tasks[first_overflow_from(tasks, from)],
        ),
        forall|j: int| from <= j < first_overflow_from(tasks, from) ==> !overflowed(tasks[j]),
    decreases tasks.len() - from,
{
    if from < tasks.len() && !overflowed(tasks[from]) {
        lemma_first_overflow(tasks, from + 1);
    }
}

impl Kernel {
    /// Looks for an adopted task whose sentinel has been overwritten and
    /// returns the identifier of the first one.
    fn check_canaries(&self) -> (overflow: Option<usize>)
        ensures
            overflow == if self@.overflow_detected() {
                Some(self@.tasks[first_overflow_from(self@.tasks, 0)].pid)
            } else {
                None
            },
    {
        let ghost tasks = views(self.tasks@);
        let mut i: usize = 0;
        while i < self.tasks.len()
            invariant
                i <= self.tasks.len(),
                tasks == views(self.tasks@),
                first_overflow_from(tasks, 0) == first_overflow_from(tasks, i as int),
            decreases self.tasks.len() - i,
        {
            assert(tasks[i as int] == self.tasks@[i as int]@);
            if self.tasks[i].is_adopted() && !self.tasks[i].canary_intact() {
                return Some(self.tasks[i].pid());
            }
            i += 1;
        }
        None
    }

    /// Drains the admission queue into the kernel task's list and registers
    /// each arrival with the scheduler.
    fn admit_new_tasks(&mut self)
        ensures
            final(self)@ == old(self)@.after_admission(),
    {
        let ghost before = self@;
        let ghost mut done: int = 0;
        proof {
            lemma_adopted_pids(before.tasks, before.pending.subrange(0, 0));
            assert(adopted_all(before.tasks, before.pending.subrange(0, 0)) =~= before.tasks) by {
                assert forall|i: int| 0 <= i < before.tasks.len() implies adopted_all(
                    before.tasks,
                    before.pending.subrange(0, 0),
                )[i] == before.tasks[i] by {
                    assert(!before.pending.subrange(0, 0).contains(before.tasks[i].pid));
                }
            }
            assert(before.run_queue.queue + before.pending.subrange(0, 0)
                =~= before.run_queue.queue);
            assert(before.pending.subrange(0, before.pending.len() as int) =~= before.pending);
        }
        while !queue_is_empty(&self.new_task_queue)
            invariant
                0 <= done <= before.pending.len(),
                self@ == (KernelView {
                    tasks: adopted_all(before.tasks, before.pending.subrange(0, done)),
                    pending: before.pending.subrange(done, before.pending.len() as int),
                    run_queue: RoundRobinView {
                        queue: before.run_queue.queue + before.pending.subrange(0, done),
                        cursor: before.run_queue.cursor,
                        busy: before.run_queue.busy && done == 0,
                    },
                    ..before
                }),
            decreases before.pending.len() - done,
        {
            let ghost admitted = before.pending.subrange(0, done);
            let ghost table = views(self.tasks@);
            match queue_pop(&mut self.new_task_queue) {
                Some(new_task) => {
                    assert(new_task == before.pending[done]);
                    proof {
                        lemma_adopted_pids(before.tasks, admitted);
                    }
                    match find_task(&self.tasks, new_task) {
                        Some(i) => {
                            assert(table[i as int] == self.tasks@[i as int]@);
                            self.tasks[i].adopt();
                        },
                        None => {},
                    }
                    self.scheduler.add_task(new_task);
                    proof {
                        let grown = before.pending.subrange(0, done + 1);
                        assert(grown =~= admitted.push(new_task));
                        assert forall|x: usize| grown.contains(x) <==> (admitted.contains(x) || x
                            == new_task) by {
                            if admitted.contains(x) {
                                let j = choose|j: int| 0 <= j < admitted.len() && admitted[j] == x;
                                assert(grown[j] == x);
                            }
                            if x == new_task {
                                assert(grown[done] == x);
                            }
                        }
                        assert(views(self.tasks@) =~= adopted_all(before.tasks, grown)) by {
                            assert forall|j: int| 0 <= j < before.tasks.len() implies views(
                                self.tasks@,
                            )[j] == adopted_all(before.tasks, grown)[j] by {
                                assert(views(self.tasks@)[j] == self.tasks@[j]@);
                                assert(table[j] == adopted_all(before.tasks, admitted)[j]);
                                assert(pids(table)[j] == before.tasks[j].pid);
                                assert(pids(before.tasks)[j] == before.tasks[j].pid);
                            }
                        }
                        assert(before.run_queue.queue + grown =~= (before.run_queue.queue
                            + admitted).push(new_task));
                        assert(before.pending.subrange(done + 1, before.pending.len() as int)
                            =~= before.pending.subrange(done, before.pending.len() as int).subrange(
                            1,
                            before.pending.len() - done,
                        ));
                        done = done + 1;
                    }
                },
                None => {
                    // The queue was seen to hold something, and nobody else takes from it.
                    assert(false);
                },
            }
        }
        proof {
            assert(before.pending.subrange(done, before.pending.len() as int).len() == 0);
            assert(before.pending.subrange(0, done) =~= before.pending);
            assert(before.pending.subrange(done, before.pending.len() as int)
                =~= Seq::<usize>::empty());
        }
    }
}

impl Kernel {
    /// Looks at every adopted task: makes those runnable that are due, and
    /// returns the position of the last finished one.
    fn promote_tasks(&mut self) -> (zombie: Option<usize>)
        ensures
            final(self)@ == old(self)@.after_promotion(),
            zombie == if last_zombie(final(self)@.tasks, final(self)@.tasks.len() as int) >= 0 {
                Some(last_zombie(final(self)@.tasks, final(self)@.tasks.len() as int) as usize)
            } else {
                None
            },
            zombie is Some ==> zombie->0 < final(self)@.tasks.len() && zombie->0 == last_zombie(
                final(self)@.tasks,
                final(self)@.tasks.len() as int,
            ),
    {
        let ghost before = self@;
        let now: u64 = self.ticks.get();
        let len: usize = self.tasks.len();
        let mut zombie: Option<usize> = None;
        let mut i: usize = 0;
        assert(views(self.tasks@) =~= Seq::new(
            len as nat,
            |j: int|
                if j < 0 {
                    promoted(before.tasks[j], before.now, before.semaphores)
                } else {
                    before.tasks[j]
                },
        ));
        while i < len
            invariant
                i <= len,
                len == self.tasks.len(),
                len == before.tasks.len(),
                now == before.now,
                self@ == (KernelView {
                    tasks: Seq::new(
                        len as nat,
                        |j: int|
                            if j < i {
                                promoted(before.tasks[j], before.now, before.semaphores)
                            } else {
                                before.tasks[j]
                            },
                    ),
                    ..before
                }),
                zombie is Some ==> zombie->0 < i,
                last_zombie(self@.tasks, i as int) == match zombie {
                    Some(z) => z as int,
                    None => -1,
                },
            decreases len - i,
        {
            let ghost table = views(self.tasks@);
            assert(table[i as int] == self.tasks@[i as int]@);
            assert(table[i as int] == before.tasks[i as int]);
            let mut has_new_state: bool = false;
            if self.tasks[i].is_adopted() {
                // A state that cannot be read counts as runnable, so that a task in the
                // middle of a transition gets to finish it.
                match self.tasks[i].observed_state() {
                    TaskState::Runnable => {},
                    TaskState::Asleep(wake_up_ticks) => {
                        if wake_up_ticks < now {
                            has_new_state = true;
                        }
                    },
                    TaskState::Blocking(sem) => {
                        if sem < self.semaphores.len() {
                            assert(sem_views(self.semaphores@)[sem as int]
                                == self.semaphores@[sem as int]@);
                            if self.semaphores[sem].is_available() {
                                has_new_state = true;
                            }
                        }
                    },
                    TaskState::Zombie => {
                        zombie = Some(i);
                    },
                }
            }
            assert(has_new_state == (table[i as int].adopted && wakes(
                table[i as int].observed(),
                before.now,
                before.semaphores,
            )));
            if has_new_state {
                let stored: bool = self.tasks[i].try_set_state(TaskState::Runnable);
                assert(stored);
            }
            proof {
                let after = views(self.tasks@);
                assert(after[i as int] == self.tasks@[i as int]@);
                assert(after[i as int] == promoted(
                    before.tasks[i as int],
                    before.now,
                    before.semaphores,
                ));
                assert forall|j: int| 0 <= j < len && j != i implies after[j] == table[j] by {
                    assert(after[j] == self.tasks@[j]@);
                }
                assert(after =~= Seq::new(
                    len as nat,
                    |j: int|
                        if j < i + 1 {
                            promoted(before.tasks[j], before.now, before.semaphores)
                        } else {
                            before.tasks[j]
                        },
                ));
                lemma_last_zombie_prefix(after, table, i as int);
                assert(is_zombie(after[i as int]) == is_zombie(table[i as int]));
            }
            i += 1;
        }
        assert(self@.tasks =~= before.after_promotion().tasks);
        zombie
    }

    /// Takes the task at position `index` out of the table and out of the
    /// run queue.
    fn reap(&mut self, index: usize) -> (reaped: Reaped)
        requires
            index < old(self)@.tasks.len(),
            index == last_zombie(old(self)@.tasks, old(self)@.tasks.len() as int),
        ensures
            Some(reaped) == old(self)@.reaped(),
            final(self)@ == old(self)@.after_reap(),
    {
        let ghost before = self@;
        assert(before.tasks[index as int] == self.tasks@[index as int]@);
        let removed_task: Task = self.tasks.remove(index);
        let pid: usize = removed_task.pid();
        // Everything the task owned goes with it, except for the boxed parameter, which
        // is handed to the caller.
        let payload: Option<usize> = removed_task.payload();
        self.scheduler.remove_task(pid);
        assert(views(self.tasks@) =~= before.tasks.remove(index as int));
        Reaped { pid, payload }
    }

    /// One pass of the kernel task.
    ///
    /// First checks the overflow sentinel of every adopted task; if one has
    /// been overwritten the system is halted and nothing else is done. Then
    /// adopts all tasks that wait in the admission queue, makes every parked
    /// task runnable that is due, reclaims at most one finished task, the
    /// last in the list, and closes with a request for a context switch.
    pub fn kernel(&mut self) -> (outcome: PassOutcome)
        ensures
            outcome == old(self)@.kernel_outcome(),
            final(self)@ == old(self)@.after_kernel(),
            old(self)@.wf() ==> final(self)@.wf(),
    {
        proof {
            if self@.wf() {
                lemma_wf_preserved(self@, 0, 0, 0, 0, 0, SemaphoreView { count: 0, mutex: false }, 0);
            }
        }
        if self.halted {
            return PassOutcome::Halted;
        }
        match self.check_canaries() {
            Some(pid) => {
                // The heap cannot be trusted any more: stop everything.
                self.halted = true;
                return PassOutcome::StackOverflow { pid };
            },
            None => {},
        }
        self.admit_new_tasks();
        let zombie: Option<usize> = self.promote_tasks();
        let reaped: Option<Reaped> = match zombie {
            Some(index) => Some(self.reap(index)),
            None => None,
        };
        // Going round again before anything else has run is useless: give up the processor.
        let switch: bool = self.do_context_switch();
        PassOutcome::Completed { reaped, switch }
    }
}

impl KernelView {
    /// Whether `sem` names a semaphore that can be taken.
    pub open spec fn sem_available(self, sem: usize) -> bool {
        sem < self.semaphores.len() && self.semaphores[sem as int].available()
    }

    /// The context after a semaphore has been added to the table.
    pub open spec fn after_sem_new(self, sem: SemaphoreView) -> KernelView {
        KernelView { semaphores: self.semaphores.push(sem), ..self }
    }

    /// The context after a take of the semaphore `sem`; unchanged if the
    /// take is refused or `sem` names no semaphore.
    pub open spec fn after_sem_take(self, sem: usize) -> KernelView {
        if sem < self.semaphores.len() {
            KernelView {
                semaphores: self.semaphores.update(sem as int, self.semaphores[sem as int].taken()),
                ..self
            }
        } else {
            self
        }
    }

    /// The context after a give of the semaphore `sem`; unchanged if `sem`
    /// names no semaphore.
    pub open spec fn after_sem_give(self, sem: usize) -> KernelView {
        if sem < self.semaphores.len() {
            KernelView {
                semaphores: self.semaphores.update(sem as int, self.semaphores[sem as int].given()),
                ..self
            }
        } else {
            self
        }
    }

    /// The handle of the completion semaphore of the running task, if it is
    /// a spawned task.
    pub open spec fn cur_completion(self) -> Option<usize> {
        if self.cur_in_table() {
            match self.tasks[task_index(self.tasks, self.cur_task->0)].task_info {
                Some(info) => Some(info.sem),
                None => None,
            }
        } else {
            None
        }
    }

    /// The context after the completion semaphore of the running task has
    /// been given.
    pub open spec fn after_give_completion(self) -> KernelView {
        match self.cur_completion() {
            Some(sem) => self.after_sem_give(sem),
            None => self,
        }
    }
}

impl Kernel {
    /// Adds a counting semaphore with the given count to the table and
    /// returns its handle.
    pub fn sem_new(&mut self, start_count: usize) -> (sem: usize)
        ensures
            sem == old(self)@.semaphores.len(),
            final(self)@ == old(self)@.after_sem_new(
                SemaphoreView { count: start_count as nat, mutex: false },
            ),
            old(self)@.wf() ==> final(self)@.wf(),
    {
        proof {
            if self@.wf() {
                lemma_wf_preserved(self@, 0, 0, 0, 0, 0, SemaphoreView { count: start_count as nat, mutex: false }, 0);
            }
        }
        let sem: usize = self.semaphores.len();
        self.semaphores.push(Semaphore::new(start_count));
        assert(sem_views(self.semaphores@) =~= old(self)@.semaphores.push(
            SemaphoreView { count: start_count as nat, mutex: false },
        ));
        sem
    }

    /// Adds a free mutex to the table and returns its handle.
    pub fn sem_new_mutex(&mut self) -> (sem: usize)
        ensures
            sem == old(self)@.semaphores.len(),
            final(self)@ == old(self)@.after_sem_new(SemaphoreView { count: 1, mutex: true }),
            old(self)@.wf() ==> final(self)@.wf(),
    {
        proof {
            if self@.wf() {
                lemma_wf_preserved(self@, 0, 0, 0, 0, 0, SemaphoreView { count: 1, mutex: true }, 0);
            }
        }
        let sem: usize = self.semaphores.len();
        self.semaphores.push(Semaphore::new_mutex());
        assert(sem_views(self.semaphores@) =~= old(self)@.semaphores.push(
            SemaphoreView { count: 1, mutex: true },
        ));
        sem
    }

    /// Whether `sem` names a semaphore that can be taken.
    pub fn sem_is_available(&self, sem: usize) -> (available: bool)
        ensures
            available == self@.sem_available(sem),
    {
        if sem < self.semaphores.len() {
            assert(sem_views(self.semaphores@)[sem as int] == self.semaphores@[sem as int]@);
            self.semaphores[sem].is_available()
        } else {
            false
        }
    }

    /// Attempts to take the semaphore `sem` without blocking.
    pub fn sem_try_take(&mut self, sem: usize) -> (taken: bool)
        ensures
            taken == old(self)@.sem_available(sem),
            final(self)@ == old(self)@.after_sem_take(sem),
            old(self)@.wf() ==> final(self)@.wf(),
    {
        proof {
            if self@.wf() {
                lemma_wf_preserved(self@, 0, sem, 0, 0, 0, SemaphoreView { count: 0, mutex: false }, 0);
            }
        }
        if sem < self.semaphores.len() {
            let ghost before = sem_views(self.semaphores@);
            assert(before[sem as int] == self.semaphores@[sem as int]@);
            let taken: bool = self.semaphores[sem].try_take();
            assert(sem_views(self.semaphores@) =~= before.update(
                sem as int,
                before[sem as int].taken(),
            ));
            taken
        } else {
            false
        }
    }

    /// One round of a blocking take of the semaphore `sem`. On `Block`
    /// nothing has changed: the caller blocks on `sem` and calls again.
    pub fn sem_take(&mut self, sem: usize) -> (action: TakeAction)
        ensures
            action == if old(self)@.sem_available(sem) {
                TakeAction::Taken
            } else {
                TakeAction::Block
            },
            final(self)@ == old(self)@.after_sem_take(sem),
            old(self)@.wf() ==> final(self)@.wf(),
    {
        if self.sem_try_take(sem) {
            TakeAction::Taken
        } else {
            TakeAction::Block
        }
    }

    /// Gives the semaphore `sem`.
    pub fn sem_give(&mut self, sem: usize)
        ensures
            final(self)@ == old(self)@.after_sem_give(sem),
            old(self)@.wf() ==> final(self)@.wf(),
    {
        proof {
            if self@.wf() {
                lemma_wf_preserved(self@, 0, sem, 0, 0, 0, SemaphoreView { count: 0, mutex: false }, 0);
            }
        }
        if sem < self.semaphores.len() {
            let ghost before = sem_views(self.semaphores@);
            assert(before[sem as int] == self.semaphores@[sem as int]@);
            self.semaphores[sem].give();
            assert(sem_views(self.semaphores@) =~= before.update(
                sem as int,
                before[sem as int].given(),
            ));
        }
    }

    /// Gives the completion semaphore of the running task, if it is a
    /// spawned task.
    pub fn give_completion(&mut self)
        ensures
            final(self)@ == old(self)@.after_give_completion(),
            old(self)@.wf() ==> final(self)@.wf(),
    {
        proof {
            if self@.wf() {
                lemma_wf_preserved(self@, 0, 0, 0, 0, 0, SemaphoreView { count: 0, mutex: false }, 0);
            }
        }
        if let Some(pid) = self.cur_task {
            if let Some(i) = find_task(&self.tasks, pid) {
                let ghost before = sem_views(self.semaphores@);
                assert(views(self.tasks@)[i as int] == self.tasks@[i as int]@);
                self.tasks[i].give(&mut self.semaphores);
                proof {
                    let after = sem_views(self.semaphores@);
                    let info = old(self)@.tasks[i as int].task_info;
                    assert forall|h: int| 0 <= h < before.len() implies after[h] == if info is Some
                        && info->0.sem == h {
                        before[h].given()
                    } else {
                        before[h]
                    } by {
                        assert(after[h] == self.semaphores@[h]@);
                        assert(before[h] == old(self).semaphores@[h]@);
                    }
                    if info is Some && info->0.sem < before.len() {
                        assert(after =~= before.update(
                            info->0.sem as int,
                            before[info->0.sem as int].given(),
                        ));
                    } else {
                        assert(after =~= before);
                    }
                }
            }
        }
    }
}

impl Kernel {
    /// Where spawned tasks start.
    pub fn task_helper(&self) -> (helper: usize)
        ensures
            helper == self@.helper,
    {
        self.helper
    }

    /// What the running task was spawned with, if it is a spawned task.
    pub fn cur_task_info(&self) -> (info: Option<NewTaskInfo>)
        ensures
            info == if self@.cur_in_table() {
                self@.tasks[task_index(self@.tasks, self@.cur_task->0)].task_info
            } else {
                None
            },
    {
        match self.cur_task {
            Some(pid) => match find_task(&self.tasks, pid) {
                Some(i) => {
                    assert(views(self.tasks@)[i as int] == self.tasks@[i as int]@);
                    self.tasks[i].task_info()
                },
                None => None,
            },
            None => None,
        }
    }

    /// The word at `offset` of the stack of the task `pid`, if there is such
    /// a task and such a word.
    pub fn read_stack(&self, pid: usize, offset: usize) -> (word: Option<usize>)
        ensures
            word == if has_task(self@.tasks, pid) && offset < self@.tasks[task_index(
                self@.tasks,
                pid,
            )].stack.len() {
                Some(self@.tasks[task_index(self@.tasks, pid)].stack[offset as int])
            } else {
                None
            },
    {
        match find_task(&self.tasks, pid) {
            Some(i) => {
                assert(views(self.tasks@)[i as int] == self.tasks@[i as int]@);
                self.tasks[i].read_stack(offset)
            },
            None => None,
        }
    }

    /// Whether a stack overflow has stopped the system.
    pub fn is_halted(&self) -> (halted: bool)
        ensures
            halted == self@.halted,
    {
        self.halted
    }

    /// Whether a task with `stack_size` words of stack can be created.
    pub fn can_spawn(&self, stack_size: usize) -> (possible: bool)
        ensures
            possible == self@.can_spawn(stack_size),
    {
        !self.halted && stack_size > frame_len(self.arch) && self.next_pid < usize::MAX
    }
}

impl KernelView {
    /// The state of the task `pid` as its state cell gives it out: `None` if
    /// there is no such task, or if the guard of its state cell is held.
    pub open spec fn state_of(self, pid: usize) -> Option<TaskState> {
        if has_task(self.tasks, pid) && !self.tasks[task_index(self.tasks, pid)].state.held {
            Some(self.tasks[task_index(self.tasks, pid)].state.state)
        } else {
            None
        }
    }

    /// This context with the task at position `i` replaced.
    pub open spec fn with_task(self, i: int, t: TaskView) -> KernelView {
        KernelView { tasks: self.tasks.update(i, t), ..self }
    }
}

impl Kernel {
    /// What the clock reads.
    pub fn now(&self) -> (ticks: u64)
        ensures
            ticks == self@.now,
    {
        self.ticks.get()
    }

    /// The identifier of the kernel task.
    pub fn kernel_pid(&self) -> (pid: usize)
        ensures
            pid == self@.kernel_task,
    {
        self.kernel_task
    }

    /// How many tasks are alive, adopted or not.
    pub fn task_count(&self) -> (n: usize)
        ensures
            n == self@.tasks.len(),
    {
        self.tasks.len()
    }

    /// How many tasks are in the run queue.
    pub fn run_queue_len(&self) -> (n: usize)
        ensures
            n == self@.run_queue.queue.len(),
    {
        self.scheduler.len()
    }

    /// Whether there is a live task with this identifier.
    pub fn has_task(&self, pid: usize) -> (found: bool)
        ensures
            found == has_task(self@.tasks, pid),
    {
        find_task(&self.tasks, pid).is_some()
    }

    /// Reads the state of the task `pid`. Returns `None` if there is no such
    /// task, or if the guard of its state cell is held.
    pub fn task_state(&self, pid: usize) -> (state: Option<TaskState>)
        ensures
            state == self@.state_of(pid),
    {
        match find_task(&self.tasks, pid) {
            Some(i) => {
                assert(views(self.tasks@)[i as int] == self.tasks@[i as int]@);
                self.tasks[i].try_get_state()
            },
            None => None,
        }
    }

    /// Whether the kernel task has adopted the task `pid`.
    pub fn is_adopted(&self, pid: usize) -> (adopted: bool)
        ensures
            adopted == (has_task(self@.tasks, pid) && self@.tasks[task_index(
                self@.tasks,
                pid,
            )].adopted),
    {
        match find_task(&self.tasks, pid) {
            Some(i) => {
                assert(views(self.tasks@)[i as int] == self.tasks@[i as int]@);
                self.tasks[i].is_adopted()
            },
            None => false,
        }
    }

    /// The count of the semaphore `sem`, if there is such a semaphore.
    pub fn sem_count(&self, sem: usize) -> (count: Option<usize>)
        ensures
            count == if sem < self@.semaphores.len() {
                Some(self@.semaphores[sem as int].count as usize)
            } else {
                None
            },
    {
        if sem < self.semaphores.len() {
            assert(sem_views(self.semaphores@)[sem as int] == self.semaphores@[sem as int]@);
            Some(self.semaphores[sem].count())
        } else {
            None
        }
    }

    /// Stores `value` at word `offset` of the stack of the task `pid`, as
    /// the task itself may do while it runs. Returns false, with nothing
    /// changed, if there is no such task or no such word.
    pub fn write_stack(&mut self, pid: usize, offset: usize, value: usize) -> (written: bool)
        ensures
            written == (has_task(old(self)@.tasks, pid) && offset < old(self)@.tasks[task_index(
                old(self)@.tasks,
                pid,
            )].stack.len()),
            final(self)@ == if written {
                let i = task_index(old(self)@.tasks, pid);
                old(self)@.with_task(
                    i,
                    TaskView {
                        stack: old(self)@.tasks[i].stack.update(offset as int, value),
                        ..old(self)@.tasks[i]
                    },
                )
            } else {
                old(self)@
            },
            old(self)@.wf() ==> final(self)@.wf(),
    {
        proof {
            if self@.wf() {
                if has_task(self@.tasks, pid) {
                    lemma_has_task(self@.tasks, pid);
                    let i = task_index(self@.tasks, pid);
                    lemma_wf_with_task(self@, i, TaskView { stack: self@.tasks[i].stack.update(offset as int, value), ..self@.tasks[i] });
                }
            }
        }
        match find_task(&self.tasks, pid) {
            Some(i) => {
                let ghost before = views(self.tasks@);
                assert(before[i as int] == self.tasks@[i as int]@);
                let written: bool = self.tasks[i].write_stack(offset, value);
                assert(views(self.tasks@) =~= before.update(i as int, self.tasks@[i as int]@));
                assert(!written ==> views(self.tasks@) =~= before);
                written
            },
            None => false,
        }
    }

    /// Gets hold of the guard of the state cell of the task `pid`, as the
    /// first half of an update of the state does. An interrupt that arrives
    /// before the guard is released finds the state unreadable. Returns
    /// whether the guard was free; false also if there is no such task.
    pub fn hold_state_guard(&mut self, pid: usize) -> (acquired: bool)
        ensures
            acquired == (has_task(old(self)@.tasks, pid) && !old(self)@.tasks[task_index(
                old(self)@.tasks,
                pid,
            )].state.held),
            final(self)@ == if has_task(old(self)@.tasks, pid) {
                let i = task_index(old(self)@.tasks, pid);
                old(self)@.with_task(
                    i,
                    old(self)@.tasks[i].with_state(
                        TaskStateView { state: old(self)@.tasks[i].state.state, held: true },
                    ),
                )
            } else {
                old(self)@
            },
            old(self)@.wf() ==> final(self)@.wf(),
    {
        proof {
            if self@.wf() {
                if has_task(self@.tasks, pid) {
                    lemma_has_task(self@.tasks, pid);
                    let i = task_index(self@.tasks, pid);
                    lemma_wf_with_task(self@, i, self@.tasks[i].with_state(TaskStateView { state: self@.tasks[i].state.state, held: true }));
                }
            }
        }
        match find_task(&self.tasks, pid) {
            Some(i) => {
                let ghost before = views(self.tasks@);
                assert(before[i as int] == self.tasks@[i as int]@);
                let acquired: bool = self.tasks[i].try_acquire_state();
                assert(views(self.tasks@) =~= before.update(i as int, self.tasks@[i as int]@));
                acquired
            },
            None => false,
        }
    }

    /// Lets go of the guard of the state cell of the task `pid`.
    pub fn release_state_guard(&mut self, pid: usize)
        ensures
            final(self)@ == if has_task(old(self)@.tasks, pid) {
                let i = task_index(old(self)@.tasks, pid);
                old(self)@.with_task(
                    i,
                    old(self)@.tasks[i].with_state(
                        TaskStateView { state: old(self)@.tasks[i].state.state, held: false },
                    ),
                )
            } else {
                old(self)@
            },
            old(self)@.wf() ==> final(self)@.wf(),
    {
        proof {
            if self@.wf() {
                if has_task(self@.tasks, pid) {
                    lemma_has_task(self@.tasks, pid);
                    let i = task_index(self@.tasks, pid);
                    lemma_wf_with_task(self@, i, self@.tasks[i].with_state(TaskStateView { state: self@.tasks[i].state.state, held: false }));
                }
            }
        }
        match find_task(&self.tasks, pid) {
            Some(i) => {
                let ghost before = views(self.tasks@);
                assert(before[i as int] == self.tasks@[i as int]@);
                self.tasks[i].release_state();
                assert(views(self.tasks@) =~= before.update(i as int, self.tasks@[i as int]@));
            },
            None => {},
        }
    }
}

} // verus!
