//! Consistency of the kernel context: no task is lost or duplicated.
//!
//! Every live task has an identifier of its own, handed out once. A task
//! that has not been adopted waits in the admission queue, exactly once, and
//! is not scheduled; a task that has been adopted sits in the run queue,
//! exactly once. The kernel task exists and stays runnable. Every mutex
//! counts zero or one.

use vstd::prelude::*;
use crate::kernel::{deadline, last_zombie, lemma_last_zombie, KernelView, Reaped};
use crate::laws::no_wakeup;
use crate::schedule::RoundRobinView;
use crate::semaphore::SemaphoreView;
use crate::arch::Arch;
use crate::task::DEFAULT_STACK_SIZE;
use crate::task_state::TaskStateView;
use crate::lookup::{first_index, lemma_first_index, lemma_first_index_unique, occurs};
use crate::spinlock::SpinlockView;
use crate::task::{has_task, pids, task_index, NewTaskInfo, TaskView};
use crate::task_state::TaskState;

verus! {

/// Whether every mutex among the semaphores counts zero or one.
pub open spec fn sems_wf(semaphores: Seq<SemaphoreView>) -> bool {
    forall|h: int| 0 <= h < semaphores.len() ==> (#[trigger] semaphores[h]).wf()
}

impl KernelView {
    /// Whether the task sits where its stage in life puts it: in the run
    /// queue once adopted, in the admission queue before.
    pub open spec fn placed(self, t: TaskView) -> bool {
        if t.adopted {
            self.run_queue.queue.contains(t.pid) && !self.pending.contains(t.pid)
        } else {
            self.pending.contains(t.pid) && !self.run_queue.queue.contains(t.pid)
        }
    }

    /// Whether the context is consistent.
    pub open spec fn wf(self) -> bool {
        &&& pids(self.tasks).no_duplicates()
        &&& forall|i: int| 0 <= i < self.tasks.len() ==> 0 < (#[trigger] self.tasks[i]).pid < self.next_pid
        &&& forall|i: int| 0 <= i < self.tasks.len() ==> self.placed(#[trigger] self.tasks[i])
        &&& self.run_queue.queue.no_duplicates()
        &&& self.pending.no_duplicates()
        &&& forall|j: int|
            0 <= j < self.run_queue.queue.len() ==> has_task(
                self.tasks,
                #[trigger] self.run_queue.queue[j],
            )
        &&& forall|j: int| 0 <= j < self.pending.len() ==> has_task(self.tasks, #[trigger] self.pending[j])
        &&& !self.run_queue.busy
        &&& self.cs_lock == (SpinlockView { depth: 0, owner: 0 })
        &&& sems_wf(self.semaphores)
        &&& has_task(self.tasks, self.kernel_task)
        &&& self.tasks[task_index(self.tasks, self.kernel_task)].state.state is Runnable
    }
}

/// Where a task with a given identifier is, in a table without duplicates.
pub proof fn lemma_task_index(tasks: Seq<TaskView>, i: int)
    requires
        pids(tasks).no_duplicates(),
        0 <= i < tasks.len(),
    ensures
        has_task(tasks, tasks[i].pid),
        task_index(tasks, tasks[i].pid) == i,
{
    assert(pids(tasks)[i] == tasks[i].pid);
    lemma_first_index_unique(pids(tasks), tasks[i].pid, i);
}

/// A task that the table has is at its index.
pub proof fn lemma_has_task(tasks: Seq<TaskView>, pid: usize)
    requires
        has_task(tasks, pid),
    ensures
        0 <= task_index(tasks, pid) < tasks.len(),
        tasks[task_index(tasks, pid)].pid == pid,
{
    lemma_first_index(pids(tasks), pid);
    assert(pids(tasks)[task_index(tasks, pid)] == tasks[task_index(tasks, pid)].pid);
}

/// A table that holds no task with this identifier at any position does not
/// have the task.
pub proof fn lemma_has_no_task(tasks: Seq<TaskView>, pid: usize)
    requires
        forall|i: int| 0 <= i < tasks.len() ==> (#[trigger] tasks[i]).pid != pid,
    ensures
        !has_task(tasks, pid),
{
    if has_task(tasks, pid) {
        lemma_has_task(tasks, pid);
    }
}

/// Creating a task keeps the context consistent.
pub proof fn lemma_wf_spawn(
    k: KernelView,
    words: usize,
    entry: usize,
    param: usize,
    info: Option<NewTaskInfo>,
    dynamic: bool,
)
    requires
        k.wf(),
    ensures
        k.after_spawn(words, entry, param, info, dynamic).wf(),
{
    let after = k.after_spawn(words, entry, param, info, dynamic);
    if k.can_spawn(words) {
        let t = k.new_task(words, entry, param, info, dynamic);
        let n = k.tasks.len() as int;
        assert(after.tasks[n] == t);
        assert(pids(after.tasks) =~= pids(k.tasks).push(t.pid));
        assert forall|i: int| 0 <= i < n implies pids(k.tasks)[i] != t.pid by {
            assert(k.tasks[i].pid < k.next_pid);
        }
        assert(pids(after.tasks).no_duplicates());
        // The new identifier is in neither queue yet.
        assert(!k.pending.contains(t.pid)) by {
            if k.pending.contains(t.pid) {
                let j = choose|j: int| 0 <= j < k.pending.len() && k.pending[j] == t.pid;
                assert(has_task(k.tasks, k.pending[j]));
                lemma_has_task(k.tasks, t.pid);
                assert(k.tasks[task_index(k.tasks, t.pid)].pid < k.next_pid);
            }
        }
        assert(!k.run_queue.queue.contains(t.pid)) by {
            if k.run_queue.queue.contains(t.pid) {
                let j = choose|j: int|
                    0 <= j < k.run_queue.queue.len() && k.run_queue.queue[j] == t.pid;
                assert(has_task(k.tasks, k.run_queue.queue[j]));
                lemma_has_task(k.tasks, t.pid);
                assert(k.tasks[task_index(k.tasks, t.pid)].pid < k.next_pid);
            }
        }
        assert(after.pending.no_duplicates());
        assert(after.pending[k.pending.len() as int] == t.pid);
        assert forall|i: int| 0 <= i < after.tasks.len() implies after.placed(
            #[trigger] after.tasks[i],
        ) by {
            if i < n {
                let old_task = k.tasks[i];
                assert(k.placed(old_task));
                if !old_task.adopted {
                    let j = choose|j: int| 0 <= j < k.pending.len() && k.pending[j] == old_task.pid;
                    assert(after.pending[j] == old_task.pid);
                }
            }
        }
        assert forall|j: int| 0 <= j < after.run_queue.queue.len() implies has_task(
            after.tasks,
            #[trigger] after.run_queue.queue[j],
        ) by {
            lemma_grown_table(k.tasks, t, k.run_queue.queue[j]);
        }
        assert forall|j: int| 0 <= j < after.pending.len() implies has_task(
            after.tasks,
            #[trigger] after.pending[j],
        ) by {
            if j < k.pending.len() {
                lemma_grown_table(k.tasks, t, k.pending[j]);
            } else {
                lemma_task_index(after.tasks, n);
            }
        }
        lemma_grown_table(k.tasks, t, k.kernel_task);
    }
}

/// A task that was in the table is still there, at the same place, after
/// another task has been appended.
proof fn lemma_grown_table(tasks: Seq<TaskView>, t: TaskView, pid: usize)
    requires
        has_task(tasks, pid),
    ensures
        has_task(tasks.push(t), pid),
        task_index(tasks.push(t), pid) == task_index(tasks, pid),
        tasks.push(t)[task_index(tasks, pid)] == tasks[task_index(tasks, pid)],
{
    lemma_has_task(tasks, pid);
    let i = task_index(tasks, pid);
    lemma_first_index(pids(tasks), pid);
    assert(pids(tasks.push(t)) =~= pids(tasks).push(t.pid));
    crate::lookup::lemma_first_index_is(pids(tasks.push(t)), pid, i);
}

/// Whether two tables hold the same tasks as far as identity and adoption
/// go.
pub open spec fn same_shape(a: Seq<TaskView>, b: Seq<TaskView>) -> bool {
    &&& a.len() == b.len()
    &&& forall|i: int|
        0 <= i < a.len() ==> (#[trigger] b[i]).pid == a[i].pid && b[i].adopted == a[i].adopted
}

/// Tables of the same shape have the same identifiers.
proof fn lemma_same_shape_pids(a: Seq<TaskView>, b: Seq<TaskView>)
    requires
        same_shape(a, b),
    ensures
        pids(a) == pids(b),
{
    assert forall|i: int| 0 <= i < a.len() implies pids(a)[i] == pids(b)[i] by {
        assert(b[i].pid == a[i].pid);
    }
    assert(pids(a) =~= pids(b));
}

/// A change that touches neither the identity nor the adoption of any task,
/// nor the contents of either queue, keeps the context consistent, provided
/// that the kernel task stays runnable, the scheduling lock is free and the
/// run queue is settled.
pub proof fn lemma_wf_same_shape(k: KernelView, after: KernelView)
    requires
        k.wf(),
        same_shape(k.tasks, after.tasks),
        after.run_queue.queue == k.run_queue.queue,
        after.pending == k.pending,
        after.next_pid >= k.next_pid,
        after.kernel_task == k.kernel_task,
        !after.run_queue.busy,
        after.cs_lock == (SpinlockView { depth: 0, owner: 0 }),
        sems_wf(after.semaphores),
        after.tasks[task_index(k.tasks, k.kernel_task)].state.state is Runnable,
    ensures
        after.wf(),
{
    lemma_same_shape_pids(k.tasks, after.tasks);
    assert forall|i: int| 0 <= i < after.tasks.len() implies 0 < (#[trigger] after.tasks[i]).pid
        < after.next_pid by {
        assert(0 < k.tasks[i].pid < k.next_pid);
    }
    assert forall|i: int| 0 <= i < after.tasks.len() implies after.placed(
        #[trigger] after.tasks[i],
    ) by {
        assert(k.placed(k.tasks[i]));
    }
    assert forall|j: int| 0 <= j < after.run_queue.queue.len() implies has_task(
        after.tasks,
        #[trigger] after.run_queue.queue[j],
    ) by {
        assert(has_task(k.tasks, k.run_queue.queue[j]));
    }
    assert forall|j: int| 0 <= j < after.pending.len() implies has_task(
        after.tasks,
        #[trigger] after.pending[j],
    ) by {
        assert(has_task(k.tasks, k.pending[j]));
    }
}

/// Parking the running context keeps the context consistent.
pub proof fn lemma_wf_park(k: KernelView, new_state: TaskState)
    requires
        k.wf(),
    ensures
        k.after_park(new_state).wf(),
{
    let after = k.after_park(new_state);
    lemma_has_task(k.tasks, k.kernel_task);
    if k.cur_in_table() {
        lemma_has_task(k.tasks, k.cur_task->0);
    }
    assert(same_shape(k.tasks, after.tasks));
    lemma_wf_same_shape(k, after);
}

/// A request for a context switch keeps the context consistent.
pub proof fn lemma_wf_context_switch(k: KernelView)
    requires
        k.wf(),
    ensures
        k.after_context_switch().wf(),
        k.after_scheduler().wf(),
{
    lemma_has_task(k.tasks, k.kernel_task);
    assert(same_shape(k.tasks, k.after_scheduler().tasks));
    lemma_wf_same_shape(k, k.after_scheduler());
    assert(same_shape(k.tasks, k.after_context_switch().tasks));
    lemma_wf_same_shape(k, k.after_context_switch());
}

/// Making due tasks runnable keeps the context consistent.
pub proof fn lemma_wf_promotion(k: KernelView)
    requires
        k.wf(),
    ensures
        k.after_promotion().wf(),
{
    lemma_has_task(k.tasks, k.kernel_task);
    assert(same_shape(k.tasks, k.after_promotion().tasks));
    lemma_wf_same_shape(k, k.after_promotion());
}

/// Draining the admission queue keeps the context consistent, and leaves
/// every task adopted.
pub proof fn lemma_wf_admission(k: KernelView)
    requires
        k.wf(),
    ensures
        k.after_admission().wf(),
        forall|i: int|
            0 <= i < k.tasks.len() ==> (#[trigger] k.after_admission().tasks[i]).adopted,
        pids(k.after_admission().tasks) == pids(k.tasks),
{
    let after = k.after_admission();
    let queue = k.run_queue.queue;
    assert(pids(after.tasks) =~= pids(k.tasks));
    assert forall|i: int| 0 <= i < k.tasks.len() implies (#[trigger] after.tasks[i]).adopted by {
        lemma_task_index(k.tasks, i);
        assert(k.placed(k.tasks[i]));
    }
    // Nothing waits and is scheduled at once.
    assert forall|a: int, b: int| 0 <= a < queue.len() && 0 <= b < k.pending.len() implies queue[a]
        != k.pending[b] by {
        if queue[a] == k.pending[b] {
            assert(has_task(k.tasks, queue[a]));
            lemma_has_task(k.tasks, queue[a]);
            let t = k.tasks[task_index(k.tasks, queue[a])];
            assert(k.placed(t));
        }
    }
    assert((queue + k.pending).no_duplicates());
    assert forall|i: int| 0 <= i < after.tasks.len() implies after.placed(
        #[trigger] after.tasks[i],
    ) by {
        let t = k.tasks[i];
        assert(k.placed(t));
        if t.adopted {
            let j = choose|j: int| 0 <= j < queue.len() && queue[j] == t.pid;
            assert((queue + k.pending)[j] == t.pid);
        } else {
            let j = choose|j: int| 0 <= j < k.pending.len() && k.pending[j] == t.pid;
            assert((queue + k.pending)[queue.len() + j] == t.pid);
        }
    }
    assert forall|j: int| 0 <= j < after.run_queue.queue.len() implies has_task(
        after.tasks,
        #[trigger] after.run_queue.queue[j],
    ) by {
        if j < queue.len() {
            assert(has_task(k.tasks, queue[j]));
        } else {
            assert(has_task(k.tasks, k.pending[j - queue.len()]));
        }
    }
    lemma_has_task(k.tasks, k.kernel_task);
}

/// What is left of a sequence without duplicates after the entry at `i` has
/// been replaced by the last one and the last one dropped: everything but
/// the entry at `i`, still without duplicates.
pub proof fn lemma_swap_remove(s: Seq<usize>, i: int)
    requires
        s.no_duplicates(),
        0 <= i < s.len(),
    ensures
        s.update(i, s.last()).drop_last().no_duplicates(),
        !s.update(i, s.last()).drop_last().contains(s[i]),
        forall|x: usize| x != s[i] && s.contains(x) ==> s.update(i, s.last()).drop_last().contains(x),
        forall|x: usize| s.update(i, s.last()).drop_last().contains(x) ==> s.contains(x),
{
    let r = s.update(i, s.last()).drop_last();
    let last = s.len() - 1;
    assert forall|a: int| 0 <= a < r.len() implies r[a] == if a == i {
        s[last]
    } else {
        s[a]
    } by {}
    assert forall|x: usize| x != s[i] && s.contains(x) implies r.contains(x) by {
        let j = choose|j: int| 0 <= j < s.len() && s[j] == x;
        if j == last {
            assert(r[i] == x);
        } else {
            assert(r[j] == x);
        }
    }
    assert forall|x: usize| r.contains(x) implies s.contains(x) by {
        let j = choose|j: int| 0 <= j < r.len() && r[j] == x;
        if j == i {
            assert(s[last] == x);
        } else {
            assert(s[j] == x);
        }
    }
}

/// Reclaiming the last finished task keeps the context consistent.
pub proof fn lemma_wf_reap(k: KernelView)
    requires
        k.wf(),
    ensures
        k.after_reap().wf(),
{
    let z = last_zombie(k.tasks, k.tasks.len() as int);
    lemma_last_zombie(k.tasks, k.tasks.len() as int);
    if z >= 0 {
        let after = k.after_reap();
        let gone = k.tasks[z];
        let queue = k.run_queue.queue;
        assert(k.placed(gone));
        lemma_first_index(queue, gone.pid);
        let q = first_index(queue, gone.pid);
        assert(occurs(queue, gone.pid));
        lemma_swap_remove(queue, q);
        assert(after.run_queue.queue == queue.update(q, queue.last()).drop_last());
        assert(pids(after.tasks) =~= pids(k.tasks).remove(z));
        assert(pids(k.tasks)[z] == gone.pid);
        assert forall|i: int| 0 <= i < after.tasks.len() implies (#[trigger] after.tasks[i])
            == k.tasks[if i < z {
            i
        } else {
            i + 1
        }] by {}
        assert forall|i: int| 0 <= i < after.tasks.len() implies (#[trigger] after.tasks[i]).pid
            != gone.pid by {
            let src = if i < z {
                i
            } else {
                i + 1
            };
            assert(pids(k.tasks)[src] == k.tasks[src].pid);
        }
        assert(pids(after.tasks).no_duplicates()) by {
            assert forall|a: int, b: int|
                0 <= a < after.tasks.len() && 0 <= b < after.tasks.len() && a != b implies pids(
                after.tasks,
            )[a] != pids(after.tasks)[b] by {
                let sa = if a < z {
                    a
                } else {
                    a + 1
                };
                let sb = if b < z {
                    b
                } else {
                    b + 1
                };
                assert(pids(k.tasks)[sa] != pids(k.tasks)[sb]);
            }
        }
        assert forall|i: int| 0 <= i < after.tasks.len() implies 0 < (#[trigger] after.tasks[i]).pid
            < after.next_pid by {
            let src = if i < z {
                i
            } else {
                i + 1
            };
            assert(0 < k.tasks[src].pid < k.next_pid);
        }
        assert forall|i: int| 0 <= i < after.tasks.len() implies after.placed(
            #[trigger] after.tasks[i],
        ) by {
            let src = if i < z {
                i
            } else {
                i + 1
            };
            assert(k.placed(k.tasks[src]));
        }
        assert forall|j: int| 0 <= j < after.run_queue.queue.len() implies has_task(
            after.tasks,
            #[trigger] after.run_queue.queue[j],
        ) by {
            let x = after.run_queue.queue[j];
            assert(after.run_queue.queue.contains(x));
            assert(queue.contains(x));
            lemma_kept_task(k.tasks, z, x);
        }
        assert forall|j: int| 0 <= j < after.pending.len() implies has_task(
            after.tasks,
            #[trigger] after.pending[j],
        ) by {
            let x = k.pending[j];
            assert(has_task(k.tasks, x));
            assert(k.pending.contains(x));
            lemma_kept_task(k.tasks, z, x);
        }
        // The kernel task is runnable, so it is not the one that was reclaimed.
        lemma_has_task(k.tasks, k.kernel_task);
        let ki = task_index(k.tasks, k.kernel_task);
        lemma_task_index(k.tasks, z);
        assert(ki != z);
        lemma_kept_task(k.tasks, z, k.kernel_task);
    }
}

/// Taking the task at position `z` out of a table without duplicates leaves
/// every other task in it, unchanged.
pub proof fn lemma_kept_task(tasks: Seq<TaskView>, z: int, pid: usize)
    requires
        pids(tasks).no_duplicates(),
        0 <= z < tasks.len(),
        has_task(tasks, pid),
        pid != tasks[z].pid,
    ensures
        has_task(tasks.remove(z), pid),
        tasks.remove(z)[task_index(tasks.remove(z), pid)] == tasks[task_index(tasks, pid)],
{
    lemma_has_task(tasks, pid);
    let i = task_index(tasks, pid);
    let rest = tasks.remove(z);
    let at = if i < z {
        i
    } else {
        i - 1
    };
    assert(rest[at] == tasks[i]);
    assert(pids(rest)[at] == pid);
    assert(pids(rest) =~= pids(tasks).remove(z));
    assert(pids(rest).no_duplicates()) by {
        assert forall|a: int, b: int|
            0 <= a < rest.len() && 0 <= b < rest.len() && a != b implies pids(rest)[a] != pids(
            rest,
        )[b] by {
            let sa = if a < z {
                a
            } else {
                a + 1
            };
            let sb = if b < z {
                b
            } else {
                b + 1
            };
            assert(pids(tasks)[sa] != pids(tasks)[sb]);
        }
    }
    lemma_first_index_unique(pids(rest), pid, at);
}

/// A pass of the kernel task keeps the context consistent.
pub proof fn lemma_wf_kernel(k: KernelView)
    requires
        k.wf(),
    ensures
        k.after_pass().wf(),
        k.after_kernel().wf(),
{
    lemma_wf_admission(k);
    lemma_wf_promotion(k.after_admission());
    lemma_wf_reap(k.after_admission().after_promotion());
    lemma_wf_context_switch(k.after_pass());
    if !k.halted && k.overflow_detected() {
        lemma_has_task(k.tasks, k.kernel_task);
        let halted = KernelView { halted: true, ..k };
        assert(same_shape(k.tasks, halted.tasks));
        lemma_wf_same_shape(k, halted);
    }
}

/// The context before the kernel task has been created.
pub open spec fn empty_context(arch: Arch, idle: usize, helper: usize) -> KernelView {
    KernelView {
        arch,
        idle,
        helper,
        now: 0,
        placeholder: TaskStateView { state: TaskState::Runnable, held: false },
        run_queue: RoundRobinView { queue: Seq::<usize>::empty(), cursor: 0, busy: false },
        tasks: Seq::<TaskView>::empty(),
        pending: Seq::<usize>::empty(),
        semaphores: Seq::<SemaphoreView>::empty(),
        kernel_task: 1,
        next_task: None,
        cur_task: None,
        next_pid: 1,
        cs_lock: SpinlockView { depth: 0, owner: 0 },
        halted: false,
    }
}

/// The context at the start: nothing but the kernel task, which waits for
/// its own first pass to adopt it.
pub open spec fn initial_context(arch: Arch, kernel_entry: usize, idle: usize, helper: usize) -> KernelView {
    empty_context(arch, idle, helper).after_spawn(DEFAULT_STACK_SIZE, kernel_entry, 0, None, false)
}

/// The context at the start is consistent.
pub proof fn lemma_wf_initial(arch: Arch, kernel_entry: usize, idle: usize, helper: usize)
    ensures
        initial_context(arch, kernel_entry, idle, helper).wf(),
        initial_context(arch, kernel_entry, idle, helper).tasks.len() == 1,
        initial_context(arch, kernel_entry, idle, helper).pending == seq![1usize],
{
    let empty = empty_context(arch, idle, helper);
    let k = initial_context(arch, kernel_entry, idle, helper);
    assert(empty.can_spawn(DEFAULT_STACK_SIZE));
    let t = empty.new_task(DEFAULT_STACK_SIZE, kernel_entry, 0, None, false);
    assert(k.tasks =~= seq![t]);
    assert(k.pending =~= seq![1usize]);
    assert(pids(k.tasks) =~= seq![1usize]);
    assert(k.pending[0] == 1);
    assert(k.tasks[0] == t);
    lemma_task_index(k.tasks, 0);
}

/// Every operation keeps the context consistent.
pub proof fn lemma_wf_preserved(
    k: KernelView,
    ticks: u64,
    sem: usize,
    words: usize,
    entry: usize,
    param: usize,
    new_sem: SemaphoreView,
    pid: usize,
)
    requires
        k.wf(),
        new_sem.wf(),
    ensures
        k.after_tick().wf(),
        k.after_context_switch().wf(),
        k.after_sleep(ticks).wf(),
        k.after_block(sem).wf(),
        k.after_remove_task().wf(),
        k.after_exit().wf(),
        k.after_task_spawn(words, entry, param).wf(),
        k.after_sem_new(new_sem).wf(),
        k.after_sem_take(sem).wf(),
        k.after_sem_give(sem).wf(),
        k.after_kernel().wf(),
        k.after_give_completion().wf(),
        (KernelView { cur_task: Some(pid), ..k }).wf(),
{
    lemma_has_task(k.tasks, k.kernel_task);
    lemma_wf_context_switch(k);
    let ticked = KernelView { now: (k.now + 1) % 0x1_0000_0000_0000_0000, ..k };
    assert(same_shape(k.tasks, ticked.tasks));
    lemma_wf_same_shape(k, ticked);
    lemma_wf_context_switch(ticked);
    lemma_wf_park(k, TaskState::Asleep(deadline(k.now, ticks)));
    lemma_wf_context_switch(k.after_park(TaskState::Asleep(deadline(k.now, ticks))));
    lemma_wf_park(k, TaskState::Blocking(sem));
    lemma_wf_context_switch(k.after_park(TaskState::Blocking(sem)));
    lemma_wf_park(k, TaskState::Zombie);
    lemma_wf_context_switch(k.after_park(TaskState::Zombie));
    assert(same_shape(k.tasks, k.after_sem_new(new_sem).tasks));
    lemma_wf_same_shape(k, k.after_sem_new(new_sem));
    assert(same_shape(k.tasks, k.after_sem_take(sem).tasks));
    lemma_wf_same_shape(k, k.after_sem_take(sem));
    assert(same_shape(k.tasks, k.after_sem_give(sem).tasks));
    lemma_wf_same_shape(k, k.after_sem_give(sem));
    let given = k.after_give_completion();
    assert(same_shape(k.tasks, given.tasks));
    lemma_wf_same_shape(k, given);
    lemma_wf_park(given, TaskState::Zombie);
    lemma_wf_context_switch(given.after_park(TaskState::Zombie));
    let with_sem = k.after_sem_new(SemaphoreView { count: 0, mutex: false });
    lemma_wf_same_shape(k, with_sem);
    lemma_wf_spawn(
        with_sem,
        words,
        k.helper,
        param,
        Some(NewTaskInfo { ep: entry, param, sem: k.semaphores.len() as usize }),
        true,
    );
    lemma_wf_kernel(k);
    let switched = KernelView { cur_task: Some(pid), ..k };
    assert(same_shape(k.tasks, switched.tasks));
    lemma_wf_same_shape(k, switched);
}

/// A finished task is reclaimed exactly once. The task that a pass reports
/// as reclaimed was a live task that had been adopted and had reached
/// `Zombie`; its payload is handed out with it; afterwards it is in no
/// table and no queue, and its identifier is never handed out again. No
/// other task leaves the table in that pass.
pub proof fn lemma_reaped_once(k: KernelView, r: Reaped)
    requires
        k.wf(),
        !k.halted,
        !k.overflow_detected(),
        k.after_admission().after_promotion().reaped() == Some(r),
    ensures
        has_task(k.tasks, r.pid),
        k.tasks[task_index(k.tasks, r.pid)].state.state is Zombie,
        r.payload == k.tasks[task_index(k.tasks, r.pid)].payload(),
        !has_task(k.after_kernel().tasks, r.pid),
        !k.after_kernel().run_queue.queue.contains(r.pid),
        !k.after_kernel().pending.contains(r.pid),
        r.pid < k.after_kernel().next_pid,
        k.after_kernel().tasks.len() == k.tasks.len() - 1,
        forall|pid: usize|
            pid != r.pid && has_task(k.tasks, pid) ==> has_task(k.after_kernel().tasks, pid),
{
    let admitted = k.after_admission();
    let ready = admitted.after_promotion();
    lemma_wf_admission(k);
    lemma_wf_promotion(admitted);
    lemma_wf_reap(ready);
    let z = last_zombie(ready.tasks, ready.tasks.len() as int);
    lemma_last_zombie(ready.tasks, ready.tasks.len() as int);
    let gone = ready.tasks[z];
    assert(gone.pid == k.tasks[z].pid);
    lemma_task_index(k.tasks, z);
    lemma_task_index(ready.tasks, z);
    let after = ready.after_reap();
    assert(k.after_kernel().tasks == after.tasks);
    assert(k.after_kernel().run_queue.queue == after.run_queue.queue);
    // Gone from the table.
    assert forall|i: int| 0 <= i < after.tasks.len() implies (#[trigger] after.tasks[i]).pid
        != gone.pid by {
        let src = if i < z {
            i
        } else {
            i + 1
        };
        assert(after.tasks[i] == ready.tasks[src]);
        assert(pids(ready.tasks)[src] == ready.tasks[src].pid);
        assert(pids(ready.tasks)[z] == gone.pid);
    }
    lemma_has_no_task(after.tasks, gone.pid);
    // Gone from the run queue.
    assert(ready.placed(gone));
    lemma_first_index(ready.run_queue.queue, gone.pid);
    lemma_swap_remove(ready.run_queue.queue, first_index(ready.run_queue.queue, gone.pid));
    assert(0 < ready.tasks[z].pid < ready.next_pid);
    // Everybody else stays.
    assert(pids(ready.tasks) == pids(k.tasks)) by {
        assert(pids(ready.tasks) =~= pids(admitted.tasks));
    }
    assert forall|pid: usize| pid != r.pid && has_task(k.tasks, pid) implies has_task(
        k.after_kernel().tasks,
        pid,
    ) by {
        lemma_kept_task(ready.tasks, z, pid);
    }
}

/// A pass without a finished task reclaims nothing and removes nothing.
pub proof fn lemma_nothing_reaped(k: KernelView)
    requires
        k.after_admission().after_promotion().reaped() is None,
    ensures
        k.after_pass().tasks == k.after_admission().after_promotion().tasks,
        k.after_pass().tasks.len() == k.tasks.len(),
{
}

/// An identifier that has been handed out and names no task any more never
/// names one again, whatever happens.
pub proof fn lemma_gone_stays_gone(
    k: KernelView,
    gone: usize,
    ticks: u64,
    sem: usize,
    words: usize,
    entry: usize,
    param: usize,
    new_sem: SemaphoreView,
)
    requires
        gone < k.next_pid,
        !has_task(k.tasks, gone),
    ensures
        !has_task(k.after_tick().tasks, gone),
        !has_task(k.after_context_switch().tasks, gone),
        !has_task(k.after_sleep(ticks).tasks, gone),
        !has_task(k.after_block(sem).tasks, gone),
        !has_task(k.after_remove_task().tasks, gone),
        !has_task(k.after_exit().tasks, gone),
        !has_task(k.after_task_spawn(words, entry, param).tasks, gone),
        !has_task(k.after_sem_new(new_sem).tasks, gone),
        !has_task(k.after_sem_take(sem).tasks, gone),
        !has_task(k.after_sem_give(sem).tasks, gone),
        !has_task(k.after_kernel().tasks, gone),
        gone < k.after_task_spawn(words, entry, param).next_pid,
        gone < k.after_kernel().next_pid,
{
    crate::laws::lemma_only_kernel_wakes(k, ticks, sem, words, entry, param, None, true, new_sem);
    lemma_still_gone(k, k.after_tick(), gone);
    lemma_still_gone(k, k.after_context_switch(), gone);
    lemma_still_gone(k, k.after_sleep(ticks), gone);
    lemma_still_gone(k, k.after_block(sem), gone);
    lemma_still_gone(k, k.after_remove_task(), gone);
    lemma_still_gone(k, k.after_exit(), gone);
    lemma_still_gone(k, k.after_task_spawn(words, entry, param), gone);
    lemma_still_gone(k, k.after_sem_new(new_sem), gone);
    lemma_still_gone(k, k.after_sem_take(sem), gone);
    lemma_still_gone(k, k.after_sem_give(sem), gone);
    // A pass only changes and removes tasks.
    let ready = k.after_admission().after_promotion();
    assert(pids(ready.tasks) =~= pids(k.tasks));
    let z = last_zombie(ready.tasks, ready.tasks.len() as int);
    lemma_last_zombie(ready.tasks, ready.tasks.len() as int);
    lemma_first_index(pids(k.tasks), gone);
    assert forall|i: int| 0 <= i < ready.tasks.len() implies (#[trigger] ready.tasks[i]).pid
        != gone by {
        assert(pids(k.tasks)[i] == ready.tasks[i].pid);
    }
    if z >= 0 {
        let after = ready.after_reap();
        assert forall|i: int| 0 <= i < after.tasks.len() implies (#[trigger] after.tasks[i]).pid
            != gone by {
            let src = if i < z {
                i
            } else {
                i + 1
            };
            assert(after.tasks[i] == ready.tasks[src]);
        }
        lemma_has_no_task(after.tasks, gone);
    } else {
        lemma_has_no_task(ready.tasks, gone);
    }
}

/// Where no task leaves the table and new tasks get fresh identifiers, an
/// identifier that names no task goes on naming none.
proof fn lemma_still_gone(k: KernelView, after: KernelView, gone: usize)
    requires
        no_wakeup(k, after),
        gone < k.next_pid,
        !has_task(k.tasks, gone),
    ensures
        !has_task(after.tasks, gone),
{
    lemma_first_index(pids(k.tasks), gone);
    assert forall|i: int| 0 <= i < after.tasks.len() implies (#[trigger] after.tasks[i]).pid
        != gone by {
        if i < k.tasks.len() {
            assert(pids(k.tasks)[i] == k.tasks[i].pid);
        }
    }
    lemma_has_no_task(after.tasks, gone);
}

/// Replacing a task by one with the same identifier, the same stage of
/// adoption and the same stored state keeps the context consistent.
pub proof fn lemma_wf_with_task(k: KernelView, i: int, t: TaskView)
    requires
        k.wf(),
        0 <= i < k.tasks.len(),
        t.pid == k.tasks[i].pid,
        t.adopted == k.tasks[i].adopted,
        t.state.state == k.tasks[i].state.state,
    ensures
        k.with_task(i, t).wf(),
{
    lemma_has_task(k.tasks, k.kernel_task);
    assert(same_shape(k.tasks, k.with_task(i, t).tasks));
    lemma_wf_same_shape(k, k.with_task(i, t));
}

} // verus!
