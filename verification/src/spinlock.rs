//! A reentrant, owner-aware lock for kernel-internal structures.
//!
//! The lock is a depth counter and the process identifier of its owner. It is
//! free while the depth is zero. The owner may take it again, which deepens
//! it; anyone else is told to yield and try again, so that the owner gets to
//! run and release it.

use vstd::prelude::*;

verus! {

/// What a spinlock is, for contracts: how deep it is held, and by whom.
pub struct SpinlockView {
    pub depth: nat,
    pub owner: usize,
}

impl SpinlockView {
    /// Whether nobody holds the lock.
    pub open spec fn free(self) -> bool {
        self.depth == 0
    }

    /// Whether a blocking take by `pid` goes through: the lock is free, or
    /// `pid` already owns it.
    pub open spec fn admits(self, pid: usize) -> bool {
        self.depth == 0 || self.owner == pid
    }

    /// The lock after a blocking take by `pid`; unchanged where the take does
    /// not go through. A depth beyond the largest machine count starts again
    /// from zero.
    pub open spec fn taken(self, pid: usize) -> SpinlockView {
        if self.depth == 0 {
            SpinlockView { depth: 1, owner: pid }
        } else if self.owner == pid {
            SpinlockView {
                depth: if self.depth >= usize::MAX {
                    0
                } else {
                    self.depth + 1
                },
                owner: pid,
            }
        } else {
            self
        }
    }

    /// The lock after a non-blocking take by `pid`, which goes through only
    /// on a free lock, whoever asks.
    pub open spec fn try_taken(self, pid: usize) -> SpinlockView {
        if self.depth == 0 {
            SpinlockView { depth: 1, owner: pid }
        } else {
            self
        }
    }

    /// The lock after a give by `pid`. Only the recorded owner can give; the
    /// last give clears the owner. A give at depth zero by the recorded owner
    /// wraps the depth to the largest machine count.
    pub open spec fn given(self, pid: usize) -> SpinlockView {
        if self.owner != pid {
            self
        } else {
            SpinlockView {
                depth: if self.depth == 0 {
                    usize::MAX as nat
                } else {
                    (self.depth - 1) as nat
                },
                owner: if self.depth <= 1 {
                    0
                } else {
                    self.owner
                },
            }
        }
    }

    /// The lock after `k` blocking takes in a row by `pid`.
    pub open spec fn taken_times(self, pid: usize, k: nat) -> SpinlockView
        decreases k,
    {
        if k == 0 {
            self
        } else {
            self.taken_times(pid, (k - 1) as nat).taken(pid)
        }
    }

    /// The lock after `k` gives in a row by `pid`.
    pub open spec fn given_times(self, pid: usize, k: nat) -> SpinlockView
        decreases k,
    {
        if k == 0 {
            self
        } else {
            self.given_times(pid, (k - 1) as nat).given(pid)
        }
    }
}

/// What the caller of a blocking take has to do next.
#[derive(Clone, Copy, PartialEq, Eq, Structural, Debug)]
pub enum SpinAction {
    /// The lock is now held by the caller; go on.
    Taken,
    /// Somebody else holds the lock and nothing changed: yield, then call
    /// again.
    Yield,
}

/// A reentrant lock owned by a process identifier.
pub struct Spinlock {
    count: usize,
    pid: usize,
}

impl View for Spinlock {
    type V = SpinlockView;

    closed spec fn view(&self) -> SpinlockView {
        SpinlockView { depth: self.count as nat, owner: self.pid }
    }
}

impl Spinlock {
    /// The depth always fits the machine word that holds it.
    pub proof fn lemma_depth_bounded(&self)
        ensures
            self@.depth <= usize::MAX,
    {
    }

    /// A free lock.
    pub fn new() -> (lock: Spinlock)
        ensures
            lock@ == (SpinlockView { depth: 0, owner: 0 }),
    {
        Spinlock { count: 0, pid: 0 }
    }

    /// One round of a blocking take on behalf of `pid`: acquires a free lock,
    /// deepens a lock that `pid` already owns, and otherwise changes nothing
    /// and asks the caller to yield.
    pub fn take(&mut self, pid: usize) -> (action: SpinAction)
        ensures
            final(self)@ == old(self)@.taken(pid),
            action == if old(self)@.admits(pid) {
                SpinAction::Taken
            } else {
                SpinAction::Yield
            },
    {
        if self.count == 0 {
            self.count = 1;
            self.pid = pid;
            SpinAction::Taken
        } else if pid == self.pid {
            self.count = self.count.wrapping_add(1);
            SpinAction::Taken
        } else {
            SpinAction::Yield
        }
    }

    /// Acquires the lock for `pid` if it is free and returns whether it did.
    /// A held lock is refused even to its owner.
    pub fn try_take(&mut self, pid: usize) -> (taken: bool)
        ensures
            taken == old(self)@.free(),
            final(self)@ == old(self)@.try_taken(pid),
    {
        if self.count == 0 {
            self.count = 1;
            self.pid = pid;
            true
        } else {
            false
        }
    }

    /// Releases one level of the lock on behalf of `pid`. A give by anyone
    /// but the recorded owner does nothing.
    pub fn give(&mut self, pid: usize)
        ensures
            final(self)@ == old(self)@.given(pid),
    {
        if pid != self.pid {
            return;
        }
        if self.count <= 1 {
            self.pid = 0;
        }
        self.count = self.count.wrapping_sub(1);
    }
}

/// From a free lock, `k` takes by `pid` all go through and leave the lock
/// `k` deep and owned by `pid`.
pub proof fn lemma_taken_times(lock: SpinlockView, pid: usize, k: nat)
    requires
        lock.free(),
        0 < k <= usize::MAX,
    ensures
        lock.taken_times(pid, k) == (SpinlockView { depth: k, owner: pid }),
        forall|i: nat| i < k ==> (#[trigger] lock.taken_times(pid, i)).admits(pid),
    decreases k,
{
    let before = lock.taken_times(pid, (k - 1) as nat);
    assert(lock.taken_times(pid, k) == before.taken(pid));
    if k > 1 {
        lemma_taken_times(lock, pid, (k - 1) as nat);
    } else {
        assert(before == lock);
    }
    assert forall|i: nat| i < k implies (#[trigger] lock.taken_times(pid, i)).admits(pid) by {
        if i == k - 1 {
            assert(before.admits(pid));
        }
    }
}

/// On a lock that `pid` holds `depth` deep, `k <= depth` gives by `pid` lower
/// the depth by `k`; the owner is cleared exactly when the depth reaches zero.
pub proof fn lemma_given_times(lock: SpinlockView, pid: usize, k: nat)
    requires
        lock.owner == pid,
        k <= lock.depth,
    ensures
        lock.given_times(pid, k).depth == lock.depth - k,
        k < lock.depth ==> lock.given_times(pid, k).owner == pid,
        0 < k == lock.depth ==> lock.given_times(pid, k).owner == 0,
    decreases k,
{
    if k > 0 {
        lemma_given_times(lock, pid, (k - 1) as nat);
        assert(lock.given_times(pid, k) == lock.given_times(pid, (k - 1) as nat).given(pid));
    }
}

/// Reentrancy: the owner may take a free lock `k` times and give it `k`
/// times, after which the lock is free again with no owner recorded. While it
/// is held, no other process gets it, blocking or not, and a give by another
/// process changes nothing.
pub proof fn lemma_reentrant(lock: SpinlockView, pid: usize, other: usize, k: nat, held: nat)
    requires
        lock.free(),
        0 < k <= usize::MAX,
        other != pid,
        0 < held <= k,
    ensures
        lock.taken_times(pid, k).given_times(pid, k) == (SpinlockView { depth: 0, owner: 0 }),
        !lock.taken_times(pid, held).admits(other),
        lock.taken_times(pid, held).taken(other) == lock.taken_times(pid, held),
        lock.taken_times(pid, held).try_taken(other) == lock.taken_times(pid, held),
        lock.taken_times(pid, held).given(other) == lock.taken_times(pid, held),
        !lock.taken_times(pid, k).given_times(pid, (k - held) as nat).admits(other),
{
    lemma_taken_times(lock, pid, k);
    lemma_taken_times(lock, pid, held);
    let top = lock.taken_times(pid, k);
    lemma_given_times(top, pid, k);
    lemma_given_times(top, pid, (k - held) as nat);
}

} // verus!
