//! Counting and mutex semaphores.
//!
//! A semaphore is a non-negative count. Taking it lowers the count by one and
//! is refused while the count is zero; giving it raises the count, except
//! that a mutex is simply set back to one. Parking a task that was refused is
//! the kernel's business: `take` only tells the caller to block and come back.

use vstd::prelude::*;

verus! {

/// What a semaphore is, for contracts: its count and whether it is a mutex.
pub struct SemaphoreView {
    pub count: nat,
    pub mutex: bool,
}

impl SemaphoreView {
    /// A mutex only ever counts zero or one.
    pub open spec fn wf(self) -> bool {
        self.mutex ==> self.count <= 1
    }

    /// Whether a take would succeed.
    pub open spec fn available(self) -> bool {
        self.count > 0
    }

    /// The semaphore after one successful take, or unchanged where the take
    /// is refused.
    pub open spec fn taken(self) -> SemaphoreView {
        if self.count > 0 {
            SemaphoreView { count: (self.count - 1) as nat, mutex: self.mutex }
        } else {
            self
        }
    }

    /// The semaphore after one give. A counting semaphore that is already at
    /// the largest machine count starts again from zero.
    pub open spec fn given(self) -> SemaphoreView {
        if self.mutex {
            SemaphoreView { count: 1, mutex: true }
        } else if self.count >= usize::MAX {
            SemaphoreView { count: 0, mutex: false }
        } else {
            SemaphoreView { count: self.count + 1, mutex: false }
        }
    }
}

/// What the caller of a blocking take has to do next.
#[derive(Clone, Copy, PartialEq, Eq, Structural, Debug)]
pub enum TakeAction {
    /// The semaphore was taken; go on.
    Taken,
    /// The count was zero and nothing changed: block on this semaphore, then
    /// call again.
    Block,
}

/// A tool used to prevent data races.
pub struct Semaphore {
    count: usize,
    mutex: bool,
}

impl View for Semaphore {
    type V = SemaphoreView;

    closed spec fn view(&self) -> SemaphoreView {
        SemaphoreView { count: self.count as nat, mutex: self.mutex }
    }
}

impl Semaphore {
    /// The count always fits the machine word that holds it.
    pub proof fn lemma_count_bounded(&self)
        ensures
            self@.count <= usize::MAX,
    {
    }

    /// Creates a counting semaphore with the given starting count.
    pub fn new(start_count: usize) -> (s: Semaphore)
        ensures
            s@ == (SemaphoreView { count: start_count as nat, mutex: false }),
            s@.wf(),
    {
        Semaphore { count: start_count, mutex: false }
    }

    /// Creates a mutex semaphore, free to be taken.
    pub fn new_mutex() -> (s: Semaphore)
        ensures
            s@ == (SemaphoreView { count: 1, mutex: true }),
            s@.wf(),
    {
        Semaphore { count: 1, mutex: true }
    }

    /// The current count.
    pub fn count(&self) -> (count: usize)
        ensures
            count == self@.count,
    {
        self.count
    }

    /// Whether this is a mutex.
    pub fn is_mutex(&self) -> (mutex: bool)
        ensures
            mutex == self@.mutex,
    {
        self.mutex
    }

    /// Returns true if the semaphore can be taken, false otherwise.
    pub fn is_available(&self) -> (available: bool)
        ensures
            available == self@.available(),
    {
        self.count > 0
    }

    /// One round of a blocking take: takes the semaphore if its count allows
    /// it, and otherwise changes nothing and asks the caller to block.
    pub fn take(&mut self) -> (action: TakeAction)
        ensures
            final(self)@ == old(self)@.taken(),
            action == if old(self)@.available() {
                TakeAction::Taken
            } else {
                TakeAction::Block
            },
            old(self)@.wf() ==> final(self)@.wf(),
    {
        if self.try_take() {
            TakeAction::Taken
        } else {
            TakeAction::Block
        }
    }

    /// Attempts to take the semaphore without blocking. Returns true, with
    /// the count lowered by one, exactly when the count was above zero.
    pub fn try_take(&mut self) -> (taken: bool)
        ensures
            taken == old(self)@.available(),
            final(self)@ == old(self)@.taken(),
            old(self)@.wf() ==> final(self)@.wf(),
    {
        let old_val: usize = self.count;
        if old_val == 0 {
            return false;
        }
        self.count = old_val - 1;
        true
    }

    /// A mutex is set to one; a counting semaphore goes up by one.
    pub fn give(&mut self)
        ensures
            final(self)@ == old(self)@.given(),
            final(self)@.mutex ==> final(self)@.wf(),
            old(self)@.wf() ==> final(self)@.wf(),
    {
        if self.mutex {
            self.count = 1;
        } else {
            self.count = self.count.wrapping_add(1);
        }
    }

    /// One round of a scoped acquisition: if the semaphore can be taken, takes
    /// it, runs `f`, gives it back and reports `Taken`; otherwise changes
    /// nothing, does not run `f`, and asks the caller to block and call again.
    pub fn with_lock<F: FnOnce()>(&mut self, f: F) -> (action: TakeAction)
        requires
            f.requires(()),
        ensures
            action == if old(self)@.available() {
                TakeAction::Taken
            } else {
                TakeAction::Block
            },
            action == TakeAction::Taken ==> f.ensures((), ()) && final(self)@ == old(
                self,
            )@.taken().given(),
            action == TakeAction::Block ==> final(self)@ == old(self)@,
            old(self)@.wf() ==> final(self)@.wf(),
    {
        if self.try_take() {
            f();
            self.give();
            TakeAction::Taken
        } else {
            TakeAction::Block
        }
    }

    /// Attempts to take the semaphore. If that succeeds, runs `f`, gives the
    /// semaphore back and returns true. Otherwise returns false and neither
    /// runs `f` nor changes anything.
    pub fn try_with_lock<F: FnOnce()>(&mut self, f: F) -> (ran: bool)
        requires
            f.requires(()),
        ensures
            ran == old(self)@.available(),
            ran ==> f.ensures((), ()) && final(self)@ == old(self)@.taken().given(),
            !ran ==> final(self)@ == old(self)@,
            old(self)@.wf() ==> final(self)@.wf(),
    {
        if self.try_take() {
            f();
            self.give();
            true
        } else {
            false
        }
    }
}

/// The count of a mutex stays within zero and one under every operation.
pub proof fn lemma_mutex_count_is_binary(s: SemaphoreView)
    requires
        s.wf(),
        s.mutex,
    ensures
        s.count == 0 || s.count == 1,
        s.taken().wf() && s.taken().mutex,
        s.given().wf() && s.given().mutex,
        s.given().count == 1,
{
}

/// Two takes contend for a mutex that counts one: the first wins and the
/// second is refused, whichever order they arrive in.
pub proof fn lemma_single_winner(s: SemaphoreView)
    requires
        s.count == 1,
    ensures
        s.available(),
        !s.taken().available(),
        s.taken().taken() == s.taken(),
        s.taken().count == 0,
{
}

/// On a mutex, a take followed by a give leaves it free, and extra gives do
/// not pile up.
pub proof fn lemma_mutex_take_give(s: SemaphoreView)
    requires
        s.wf(),
        s.mutex,
    ensures
        s.taken().given().count == 1,
        s.given().given() == s.given(),
{
}

/// On a counting semaphore, a give undoes a take and a take undoes a give.
pub proof fn lemma_counting_take_give(s: SemaphoreView)
    requires
        !s.mutex,
        s.count <= usize::MAX,
    ensures
        s.available() ==> s.taken().given() == s,
        s.count < usize::MAX ==> s.given().taken() == s,
{
}

} // verus!
