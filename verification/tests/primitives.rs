use fe_rtos::semaphore::{Semaphore, TakeAction};
use fe_rtos::spinlock::{SpinAction, Spinlock};
use fe_rtos::task_state::{TaskState, TaskStateStruct};
use fe_rtos::tick::TickCounter;

#[test]
fn tick_counter_starts_at_zero() {
    let t = TickCounter::new();
    assert_eq!(t.get(), 0);
}

#[test]
fn tick_counter_counts_up_by_one() {
    let mut t = TickCounter::new();
    let mut last = t.get();
    for expected in 1..=1000u64 {
        t.inc();
        let now = t.get();
        assert!(now >= last);
        assert_eq!(now, expected);
        last = now;
    }
}

#[test]
fn tick_counter_carries_into_the_high_half() {
    let mut t = TickCounter::from_ticks(0xFFFF_FFFF);
    assert_eq!(t.get(), 0xFFFF_FFFF);
    t.inc();
    assert_eq!(t.get(), 0x1_0000_0000);
    t.inc();
    assert_eq!(t.get(), 0x1_0000_0001);
    let mut t = TickCounter::from_ticks(0x0000_0007_FFFF_FFFE);
    t.inc();
    assert_eq!(t.get(), 0x0000_0007_FFFF_FFFF);
    t.inc();
    assert_eq!(t.get(), 0x0000_0008_0000_0000);
}

#[test]
fn tick_counter_wraps_only_at_the_very_end() {
    let mut t = TickCounter::from_ticks(u64::MAX - 1);
    t.inc();
    assert_eq!(t.get(), u64::MAX);
    t.inc();
    assert_eq!(t.get(), 0);
}

#[test]
fn tick_counter_reads_what_it_was_started_with() {
    for ticks in [0u64, 1, 0xFFFF_FFFF, 0x1_0000_0000, 0xDEAD_BEEF_0BAD_F00D, u64::MAX] {
        assert_eq!(TickCounter::from_ticks(ticks).get(), ticks);
    }
}

#[test]
fn semaphore_new_has_given_count() {
    let s = Semaphore::new(3);
    assert_eq!(s.count(), 3);
    assert!(!s.is_mutex());
    assert!(s.is_available());
    let empty = Semaphore::new(0);
    assert_eq!(empty.count(), 0);
    assert!(!empty.is_available());
}

#[test]
fn semaphore_new_mutex_is_free() {
    let m = Semaphore::new_mutex();
    assert_eq!(m.count(), 1);
    assert!(m.is_mutex());
    assert!(m.is_available());
}

#[test]
fn semaphore_try_take_counts_down_and_stops_at_zero() {
    let mut s = Semaphore::new(2);
    assert!(s.try_take());
    assert_eq!(s.count(), 1);
    assert!(s.try_take());
    assert_eq!(s.count(), 0);
    assert!(!s.try_take());
    assert_eq!(s.count(), 0);
    assert!(!s.is_available());
}

#[test]
fn semaphore_take_asks_to_block_on_zero() {
    let mut s = Semaphore::new(1);
    assert_eq!(s.take(), TakeAction::Taken);
    assert_eq!(s.count(), 0);
    assert_eq!(s.take(), TakeAction::Block);
    assert_eq!(s.count(), 0);
    s.give();
    assert_eq!(s.take(), TakeAction::Taken);
}

#[test]
fn counting_semaphore_give_increments() {
    let mut s = Semaphore::new(0);
    s.give();
    s.give();
    s.give();
    assert_eq!(s.count(), 3);
}

#[test]
fn counting_semaphore_give_wraps_at_the_largest_count() {
    let mut s = Semaphore::new(usize::MAX);
    s.give();
    assert_eq!(s.count(), 0);
}

#[test]
fn mutex_give_resets_to_one() {
    let mut m = Semaphore::new_mutex();
    m.give();
    m.give();
    assert_eq!(m.count(), 1);
    assert!(m.try_take());
    assert_eq!(m.count(), 0);
    m.give();
    assert_eq!(m.count(), 1);
}

#[test]
fn mutex_count_stays_zero_or_one() {
    let mut m = Semaphore::new_mutex();
    let script = [true, true, false, false, true, false, true, true, true, false];
    for take in script {
        if take {
            m.try_take();
        } else {
            m.give();
        }
        assert!(m.count() == 0 || m.count() == 1);
    }
}

#[test]
fn mutex_contended_by_two_has_one_winner() {
    let mut m = Semaphore::new_mutex();
    let first = m.try_take();
    let second = m.try_take();
    assert!(first);
    assert!(!second);
    assert_eq!(m.count(), 0);
}

#[test]
fn with_lock_runs_the_closure_and_releases() {
    let mut m = Semaphore::new_mutex();
    let mut ran = 0;
    let action = m.with_lock(|| ran += 1);
    assert_eq!(action, TakeAction::Taken);
    assert_eq!(ran, 1);
    assert_eq!(m.count(), 1);
}

#[test]
fn with_lock_on_a_taken_mutex_asks_to_block() {
    let mut m = Semaphore::new_mutex();
    assert!(m.try_take());
    let mut ran = 0;
    let action = m.with_lock(|| ran += 1);
    assert_eq!(action, TakeAction::Block);
    assert_eq!(ran, 0);
    assert_eq!(m.count(), 0);
}

#[test]
fn try_with_lock_reports_whether_it_ran() {
    let mut m = Semaphore::new_mutex();
    let mut ran = 0;
    assert!(m.try_with_lock(|| ran += 1));
    assert_eq!(ran, 1);
    assert_eq!(m.count(), 1);
    assert!(m.try_take());
    assert!(!m.try_with_lock(|| ran += 1));
    assert_eq!(ran, 1);
    assert_eq!(m.count(), 0);
}

#[test]
fn try_with_lock_on_counting_semaphore_restores_the_count() {
    let mut s = Semaphore::new(2);
    assert!(s.try_with_lock(|| ()));
    assert_eq!(s.count(), 2);
}

#[test]
fn spinlock_is_reentrant_for_its_owner() {
    let mut lock = Spinlock::new();
    let depth = 5;
    for _ in 0..depth {
        assert_eq!(lock.take(7), SpinAction::Taken);
        // Nobody else gets in while it is held.
        assert_eq!(lock.take(8), SpinAction::Yield);
        assert!(!lock.try_take(8));
    }
    for remaining in (0..depth).rev() {
        lock.give(7);
        if remaining > 0 {
            assert_eq!(lock.take(8), SpinAction::Yield);
            assert!(!lock.try_take(8));
        }
    }
    // Free again: somebody else can have it.
    assert_eq!(lock.take(8), SpinAction::Taken);
}

#[test]
fn spinlock_try_take_refuses_even_the_owner() {
    let mut lock = Spinlock::new();
    assert!(lock.try_take(3));
    assert!(!lock.try_take(3));
    lock.give(3);
    assert!(lock.try_take(4));
}

#[test]
fn spinlock_give_by_a_stranger_changes_nothing() {
    let mut lock = Spinlock::new();
    assert_eq!(lock.take(1), SpinAction::Taken);
    lock.give(2);
    assert_eq!(lock.take(2), SpinAction::Yield);
    lock.give(1);
    assert_eq!(lock.take(2), SpinAction::Taken);
}

#[test]
fn state_cell_starts_runnable() {
    let cell = TaskStateStruct::new();
    assert_eq!(cell.try_get(), Some(TaskState::Runnable));
}

#[test]
fn state_cell_stores_each_state() {
    let mut cell = TaskStateStruct::new();
    for state in [
        TaskState::Asleep(15),
        TaskState::Blocking(2),
        TaskState::Zombie,
        TaskState::Runnable,
    ] {
        assert!(cell.try_set(state));
        assert_eq!(cell.try_get(), Some(state));
        assert_eq!(cell.get_or_runnable(), state);
    }
}

#[test]
fn state_cell_under_contention_gives_up_at_once() {
    let mut cell = TaskStateStruct::new();
    assert!(cell.try_set(TaskState::Asleep(9)));
    assert!(cell.try_acquire());
    assert!(!cell.try_acquire());
    assert_eq!(cell.try_get(), None);
    assert!(!cell.try_set(TaskState::Zombie));
    // A reader that cannot get the guard takes the task for runnable.
    assert_eq!(cell.get_or_runnable(), TaskState::Runnable);
    cell.release();
    // The refused write has left no trace.
    assert_eq!(cell.try_get(), Some(TaskState::Asleep(9)));
}
