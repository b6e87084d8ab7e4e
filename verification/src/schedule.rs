//! Strict round-robin scheduling.
//!
//! The run queue is an ordered sequence of process identifiers with a
//! circular cursor. Picking the next task never waits: while the queue is
//! being changed, or when it is empty, nothing is picked and the caller falls
//! back on the kernel task.

use vstd::prelude::*;
use crate::lookup::{first_index, lemma_first_index, occurs, position};
use crate::task::{is_runnable, task_is_runnable, views, Task, TaskView};

verus! {

/// What a run queue is, for contracts.
pub struct RoundRobinView {
    /// The queued process identifiers.
    pub queue: Seq<usize>,
    /// The position to look at next.
    pub cursor: usize,
    /// Whether the queue is in the middle of being changed.
    pub busy: bool,
}

impl RoundRobinView {
    /// The queue is no longer than a machine word can count.
    pub open spec fn wf(self) -> bool {
        self.queue.len() <= usize::MAX
    }

    /// Where a scan begins: at the cursor, or at the front if the cursor has
    /// been left beyond the end by a removal.
    pub open spec fn start(self) -> int {
        if self.cursor >= self.queue.len() {
            0
        } else {
            self.cursor as int
        }
    }

    /// The `k`-th candidate of a scan, counting circularly from the start.
    pub open spec fn candidate(self, k: int) -> usize
        recommends
            self.queue.len() > 0,
    {
        self.queue[(self.start() + k) % (self.queue.len() as int)]
    }

    /// The least `j >= k` for which the `j`-th candidate is runnable, or the
    /// length of the queue if no candidate from the `k`-th on is.
    pub open spec fn first_hit(self, runnable: spec_fn(usize) -> bool, k: int) -> int
        decreases self.queue.len() - k,
    {
        if k < 0 || k >= self.queue.len() {
            self.queue.len() as int
        } else if runnable(self.candidate(k)) {
            k
        } else {
            self.first_hit(runnable, k + 1)
        }
    }

    /// Whether a scan finds anything: the queue is neither busy nor empty and
    /// some candidate is runnable.
    pub open spec fn finds(self, runnable: spec_fn(usize) -> bool) -> bool {
        !self.busy && self.first_hit(runnable, 0) < self.queue.len()
    }

    /// The task that a scan picks: the first runnable candidate in circular
    /// order from the start.
    pub open spec fn pick(self, runnable: spec_fn(usize) -> bool) -> Option<usize> {
        if self.finds(runnable) {
            Some(self.candidate(self.first_hit(runnable, 0)))
        } else {
            None
        }
    }

    /// The run queue after a scan. The cursor moves once past every candidate
    /// that was looked at, so it ends just behind the task that was picked;
    /// a scan that finds nothing leaves it at the start. A busy or empty
    /// queue is left untouched.
    pub open spec fn after_next(self, runnable: spec_fn(usize) -> bool) -> RoundRobinView {
        if self.busy || self.queue.len() == 0 {
            self
        } else if self.finds(runnable) {
            RoundRobinView {
                cursor: ((self.start() + self.first_hit(runnable, 0) + 1) % (
                self.queue.len() as int)) as usize,
                ..self
            }
        } else {
            RoundRobinView { cursor: self.start() as usize, ..self }
        }
    }

    /// The run queue after `n` scans in a row.
    pub open spec fn after_nexts(self, runnable: spec_fn(usize) -> bool, n: nat) -> RoundRobinView
        decreases n,
    {
        if n == 0 {
            self
        } else {
            self.after_nexts(runnable, (n - 1) as nat).after_next(runnable)
        }
    }

    /// The run queue after a task has been appended.
    pub open spec fn after_add(self, pid: usize) -> RoundRobinView {
        RoundRobinView { queue: self.queue.push(pid), cursor: self.cursor, busy: false }
    }

    /// The run queue after the first entry for `pid` has been removed by
    /// moving the last entry into its place. The cursor stays where it is.
    pub open spec fn after_remove(self, pid: usize) -> RoundRobinView {
        RoundRobinView {
            queue: if occurs(self.queue, pid) {
                self.queue.update(first_index(self.queue, pid), self.queue.last()).drop_last()
            } else {
                self.queue
            },
            cursor: self.cursor,
            busy: false,
        }
    }

    /// What `first_hit` finds: a runnable candidate with no runnable one
    /// before it, from the `k`-th on.
    pub proof fn lemma_first_hit(self, runnable: spec_fn(usize) -> bool, k: int)
        requires
            0 <= k <= self.queue.len(),
        ensures
            k <= self.first_hit(runnable, k) <= self.queue.len(),
            self.first_hit(runnable, k) < self.queue.len() ==> runnable(
                self.candidate(self.first_hit(runnable, k)),
            ),
            forall|j: int| k <= j < self.first_hit(runnable, k) ==> !runnable(self.candidate(j)),
        decreases self.queue.len() - k,
    {
        if k < self.queue.len() && !runnable(self.candidate(k)) {
            self.lemma_first_hit(runnable, k + 1);
        }
    }
}

/// The test that a scan applies to a candidate: whether the task with that
/// identifier reads as `Runnable` in `tasks`.
pub open spec fn runnable_in(tasks: Seq<TaskView>) -> spec_fn(usize) -> bool {
    |pid: usize| is_runnable(tasks, pid)
}

/// The run queue of the round-robin scheduler.
pub struct RoundRobin {
    queue: Vec<usize>,
    current_index: usize,
    busy: bool,
}

impl View for RoundRobin {
    type V = RoundRobinView;

    closed spec fn view(&self) -> RoundRobinView {
        RoundRobinView { queue: self.queue@, cursor: self.current_index, busy: self.busy }
    }
}

impl RoundRobin {
    /// The queue of a scheduler is always short enough to be counted.
    pub proof fn lemma_view_wf(&self)
        ensures
            self@.wf(),
    {
        assert(self.queue@.len() == self.queue.len());
    }

    /// An empty run queue.
    pub fn new() -> (rr: RoundRobin)
        ensures
            rr@ == (RoundRobinView { queue: Seq::<usize>::empty(), cursor: 0, busy: false }),
    {
        RoundRobin { queue: Vec::new(), current_index: 0, busy: false }
    }

    /// Marks the queue as being changed, or as settled again. An interrupt
    /// that asks for the next task in between gets none.
    pub fn set_busy(&mut self, busy: bool)
        ensures
            final(self)@ == (RoundRobinView { busy, ..old(self)@ }),
    {
        self.busy = busy;
    }

    /// How many tasks are queued.
    pub fn len(&self) -> (n: usize)
        ensures
            n == self@.queue.len(),
    {
        self.queue.len()
    }

    /// Moves the cursor one position on, back to the front after the last
    /// position or from beyond the end.
    pub fn increment_index(&mut self)
        ensures
            final(self)@ == (RoundRobinView {
                cursor: if old(self)@.cursor + 1 >= old(self)@.queue.len() {
                    0
                } else {
                    (old(self)@.cursor + 1) as usize
                },
                ..old(self)@
            }),
    {
        let idx: usize = self.current_index;
        let len: usize = self.queue.len();
        if idx == usize::MAX || idx + 1 >= len {
            self.current_index = 0;
        } else {
            self.current_index = idx + 1;
        }
    }

    /// Appends a task to the run queue.
    pub fn add_task(&mut self, pid: usize)
        ensures
            final(self)@ == old(self)@.after_add(pid),
    {
        self.busy = true;
        self.queue.push(pid);
        self.busy = false;
    }

    /// Picks the next task to run: the first in circular order from the
    /// cursor that reads as `Runnable` in `tasks`. Returns `None`, leaving
    /// the queue untouched, while the queue is busy or empty; and `None`
    /// after one full revolution in which nothing was runnable.
    pub fn next(&mut self, tasks: &Vec<Task>) -> (picked: Option<usize>)
        ensures
            picked == old(self)@.pick(runnable_in(views(tasks@))),
            final(self)@ == old(self)@.after_next(runnable_in(views(tasks@))),
    {
        // The scheduler must not wait: give up if the queue is being changed.
        if self.busy {
            return None;
        }
        if self.queue.is_empty() {
            return None;
        }
        let ghost runnable = runnable_in(views(tasks@));
        let ghost before = self@;
        let len: usize = self.queue.len();
        if self.current_index >= len {
            self.increment_index();
        }
        assert(self@.cursor == before.start() % (len as int)) by {
            vstd::arithmetic::div_mod::lemma_small_mod(before.start() as nat, len as nat);
        }
        let mut examined: usize = 0;
        while examined < len
            invariant
                len == self.queue.len(),
                len > 0,
                examined <= len,
                before == old(self)@,
                self@.queue == before.queue,
                self@.busy == before.busy,
                !before.busy,
                runnable == runnable_in(views(tasks@)),
                0 <= before.start() < len,
                self@.cursor == (before.start() + examined) % (len as int),
                before.first_hit(runnable, 0) == before.first_hit(runnable, examined as int),
            decreases len - examined,
        {
            let idx: usize = self.current_index;
            let pid: usize = self.queue[idx];
            assert(pid == before.candidate(examined as int));
            let is_ready: bool = task_is_runnable(tasks, pid);
            assert(is_ready == runnable(pid));
            self.increment_index();
            assert(self@.cursor == (before.start() + examined + 1) % (len as int)) by {
                lemma_step_mod(before.start(), examined as int, len as int);
            }
            if is_ready {
                assert(before.first_hit(runnable, 0) == examined);
                return Some(pid);
            }
            examined += 1;
        }
        assert(self@.cursor == before.start()) by {
            lemma_full_turn(before.start(), len as int);
        }
        assert(before.first_hit(runnable, 0) == len);
        None
    }

    /// Removes the first entry for `pid`, if there is one, by moving the last
    /// entry into its place.
    pub fn remove_task(&mut self, pid: usize)
        ensures
            final(self)@ == old(self)@.after_remove(pid),
    {
        self.busy = true;
        let ghost before = self.queue@;
        match position(&self.queue, pid) {
            Some(idx) => {
                proof {
                    lemma_first_index(before, pid);
                }
                assert(idx as int == first_index(before, pid));
                self.queue.swap_remove(idx);
                assert(self.queue@ == before.update(first_index(before, pid), before.last()).drop_last());
            },
            None => {
                assert(!occurs(before, pid));
            },
        }
        self.busy = false;
    }
}

/// Below `2 * n`, taking the remainder by `n` subtracts `n` at most once.
proof fn lemma_mod_once(x: int, n: int)
    requires
        0 <= x < 2 * n,
    ensures
        x % n == if x < n {
            x
        } else {
            x - n
        },
{
    if x < n {
        vstd::arithmetic::div_mod::lemma_fundamental_div_mod_converse(x, n, 0, x);
    } else {
        vstd::arithmetic::div_mod::lemma_fundamental_div_mod_converse(x, n, 1, x - n);
    }
}

/// Adding whole revolutions does not change the position.
proof fn lemma_mod_add(s: int, k: int, n: int)
    requires
        0 <= s < n,
        0 <= k,
    ensures
        (s + k) % n == (s + k % n) % n,
        0 <= k % n < n,
{
    vstd::arithmetic::div_mod::lemma_add_mod_noop(s, k, n);
    vstd::arithmetic::div_mod::lemma_small_mod(s as nat, n as nat);
    vstd::arithmetic::div_mod::lemma_mod_bound(k, n);
}

impl RoundRobinView {
    /// Whether every queued task is runnable.
    pub open spec fn all_runnable(self, runnable: spec_fn(usize) -> bool) -> bool {
        forall|i: int| 0 <= i < self.queue.len() ==> runnable(#[trigger] self.queue[i])
    }

    /// The queue position that the `k`-th scan from now looks at first,
    /// counting from zero.
    pub open spec fn turn(self, k: nat) -> int {
        (self.start() + k) % (self.queue.len() as int)
    }

    /// Whether one of the next `len` scans looks first at queue position `i`.
    pub open spec fn reached(self, i: int) -> bool {
        exists|k: nat| k < self.queue.len() && #[trigger] self.turn(k) == i
    }

    /// With every queued task runnable, a scan picks the task under the
    /// cursor and moves the cursor one position on.
    pub proof fn lemma_next_all_runnable(self, runnable: spec_fn(usize) -> bool)
        requires
            self.wf(),
            !self.busy,
            self.queue.len() > 0,
            self.all_runnable(runnable),
        ensures
            self.pick(runnable) == Some(self.queue[self.start()]),
            self.after_next(runnable).queue == self.queue,
            !self.after_next(runnable).busy,
            self.after_next(runnable).start() == (self.start() + 1) % (self.queue.len() as int),
            self.after_next(runnable).cursor == self.after_next(runnable).start(),
    {
        let n = self.queue.len() as int;
        lemma_mod_once(self.start(), n);
        lemma_mod_once(self.start() + 1, n);
        assert(runnable(self.candidate(0)));
        assert(self.first_hit(runnable, 0) == 0);
    }

    /// Round-robin order: with every queued task runnable and nothing added
    /// or removed, the `k`-th scan from now, counting from zero, picks the
    /// task at position `(start + k) % len`.
    pub proof fn lemma_kth_pick(self, runnable: spec_fn(usize) -> bool, k: nat)
        requires
            self.wf(),
            !self.busy,
            self.queue.len() > 0,
            self.all_runnable(runnable),
        ensures
            self.after_nexts(runnable, k).queue == self.queue,
            !self.after_nexts(runnable, k).busy,
            self.after_nexts(runnable, k).start() == self.turn(k),
            0 <= self.turn(k) < self.queue.len(),
            self.after_nexts(runnable, k).pick(runnable) == Some(self.queue[self.turn(k)]),
        decreases k,
    {
        let n = self.queue.len() as int;
        if k == 0 {
            lemma_mod_once(self.start(), n);
        } else {
            let prev = self.after_nexts(runnable, (k - 1) as nat);
            self.lemma_kth_pick(runnable, (k - 1) as nat);
            prev.lemma_next_all_runnable(runnable);
            assert(self.after_nexts(runnable, k) == prev.after_next(runnable));
            lemma_step_mod(self.start(), k - 1, n);
            lemma_mod_once(self.turn((k - 1) as nat) + 1, n);
        }
        self.after_nexts(runnable, k).lemma_next_all_runnable(runnable);
    }

    /// Fairness: with `n` queued tasks, all runnable, and nothing added or
    /// removed, `n` scans in a row look at every queue position exactly once,
    /// and the scan after them picks the same task as the first.
    pub proof fn lemma_fair(self, runnable: spec_fn(usize) -> bool)
        requires
            self.wf(),
            !self.busy,
            self.queue.len() > 0,
            self.all_runnable(runnable),
        ensures
            forall|i: int| 0 <= i < self.queue.len() ==> #[trigger] self.reached(i),
            forall|k1: nat, k2: nat|
                k1 < self.queue.len() && k2 < self.queue.len() && #[trigger] self.turn(k1)
                    == #[trigger] self.turn(k2) ==> k1 == k2,
            self.after_nexts(runnable, self.queue.len()).pick(runnable) == self.pick(runnable),
            self.turn(self.queue.len()) == self.turn(0),
    {
        let n = self.queue.len() as int;
        let s = self.start();
        assert forall|i: int| 0 <= i < n implies #[trigger] self.reached(i) by {
            let k: nat = if i >= s {
                (i - s) as nat
            } else {
                (i + n - s) as nat
            };
            lemma_mod_once(s + k, n);
            assert(self.turn(k) == i);
        }
        assert forall|k1: nat, k2: nat|
            k1 < n && k2 < n && #[trigger] self.turn(k1) == #[trigger] self.turn(k2) implies k1 == k2 by {
            lemma_mod_once(s + k1, n);
            lemma_mod_once(s + k2, n);
        }
        self.lemma_kth_pick(runnable, n as nat);
        self.lemma_kth_pick(runnable, 0);
        lemma_mod_once(s + n, n);
        lemma_mod_once(s, n);
        assert(self.after_nexts(runnable, 0) == self);
    }

    /// If the queue holds each task once, the tasks picked by `n` scans in a
    /// row are pairwise different: every task gets the processor exactly once
    /// per revolution.
    pub proof fn lemma_fair_distinct(self, runnable: spec_fn(usize) -> bool, k1: nat, k2: nat)
        requires
            self.wf(),
            !self.busy,
            self.queue.len() > 0,
            self.all_runnable(runnable),
            self.queue.no_duplicates(),
            k1 < k2 < self.queue.len(),
        ensures
            self.after_nexts(runnable, k1).pick(runnable) != self.after_nexts(runnable, k2).pick(
                runnable,
            ),
    {
        self.lemma_kth_pick(runnable, k1);
        self.lemma_kth_pick(runnable, k2);
        self.lemma_fair(runnable);
    }
}

/// Moving on from position `(s + k) % n` gives position `(s + k + 1) % n`.
proof fn lemma_step_mod(s: int, k: int, n: int)
    requires
        0 <= s < n,
        0 <= k,
    ensures
        (if (s + k) % n + 1 >= n {
            0
        } else {
            (s + k) % n + 1
        }) == (s + k + 1) % n,
{
    lemma_mod_add(s, k, n);
    lemma_mod_add(s, k + 1, n);
    let r = k % n;
    vstd::arithmetic::div_mod::lemma_mod_bound(k, n);
    lemma_mod_once(s + r, n);
    // (k + 1) % n is r + 1, or 0 when r is the last remainder.
    vstd::arithmetic::div_mod::lemma_add_mod_noop(k, 1, n);
    if n == 1 {
        lemma_mod_once(0, n);
        lemma_mod_once(1, n);
        assert((k + 1) % n == 0) by {
            vstd::arithmetic::div_mod::lemma_mod_bound(k + 1, n);
        }
        assert((s + k) % n == 0) by {
            vstd::arithmetic::div_mod::lemma_mod_bound(s + k, n);
        }
        assert((s + k + 1) % n == 0) by {
            vstd::arithmetic::div_mod::lemma_mod_bound(s + k + 1, n);
        }
    } else {
        lemma_mod_once(1, n);
        lemma_mod_once(r + 1, n);
        let r1 = (k + 1) % n;
        assert(r1 == if r + 1 < n {
            r + 1
        } else {
            0
        });
        lemma_mod_once(s + r1, n);
    }
}

/// A full revolution ends where it began.
proof fn lemma_full_turn(s: int, n: int)
    requires
        0 <= s < n,
    ensures
        (s + n) % n == s,
{
    vstd::arithmetic::div_mod::lemma_fundamental_div_mod_converse(s + n, n, 1, s);
}

} // verus!
