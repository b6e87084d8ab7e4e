use fe_rtos::schedule::RoundRobin;
use fe_rtos::task::{find_task, task_is_runnable, Task};
use fe_rtos::task_state::TaskState;

fn task(pid: usize) -> Task {
    Task::new(pid, vec![0; 4], 0, 4, true, None)
}

fn tasks(pids: &[usize]) -> Vec<Task> {
    pids.iter().map(|pid| task(*pid)).collect()
}

#[test]
fn empty_run_queue_picks_nothing() {
    let mut rr = RoundRobin::new();
    assert_eq!(rr.len(), 0);
    assert_eq!(rr.next(&tasks(&[1, 2])), None);
}

#[test]
fn busy_run_queue_picks_nothing() {
    let table = tasks(&[1, 2]);
    let mut rr = RoundRobin::new();
    rr.add_task(1);
    rr.add_task(2);
    rr.set_busy(true);
    assert_eq!(rr.next(&table), None);
    assert_eq!(rr.next(&table), None);
    rr.set_busy(false);
    // The refused calls have not moved the cursor.
    assert_eq!(rr.next(&table), Some(1));
}

#[test]
fn three_runnable_tasks_take_turns() {
    let table = tasks(&[10, 20, 30]);
    let mut rr = RoundRobin::new();
    rr.add_task(10);
    rr.add_task(20);
    rr.add_task(30);
    let first = rr.next(&table);
    let second = rr.next(&table);
    let third = rr.next(&table);
    let fourth = rr.next(&table);
    assert_eq!(first, Some(10));
    assert_eq!(second, Some(20));
    assert_eq!(third, Some(30));
    assert_eq!(fourth, first);
}

#[test]
fn every_task_is_picked_once_per_revolution() {
    let pids: Vec<usize> = (1..=7).collect();
    let table = tasks(&pids);
    let mut rr = RoundRobin::new();
    for pid in &pids {
        rr.add_task(*pid);
    }
    // Start somewhere in the middle.
    rr.next(&table);
    rr.next(&table);
    rr.next(&table);
    let mut seen: Vec<usize> = Vec::new();
    for _ in 0..pids.len() {
        seen.push(rr.next(&table).unwrap());
    }
    assert_eq!(seen, vec![4, 5, 6, 7, 1, 2, 3]);
    assert_eq!(rr.next(&table), Some(4));
}

#[test]
fn tasks_that_are_not_runnable_are_skipped() {
    let mut table = tasks(&[1, 2, 3, 4]);
    assert!(table[1].try_set_state(TaskState::Asleep(100)));
    assert!(table[2].try_set_state(TaskState::Blocking(0)));
    let mut rr = RoundRobin::new();
    for pid in 1..=4 {
        rr.add_task(pid);
    }
    assert_eq!(rr.next(&table), Some(1));
    assert_eq!(rr.next(&table), Some(4));
    assert_eq!(rr.next(&table), Some(1));
    assert!(table[3].try_set_state(TaskState::Zombie));
    assert_eq!(rr.next(&table), Some(1));
    assert_eq!(rr.next(&table), Some(1));
}

#[test]
fn nothing_runnable_yields_nothing_after_one_revolution() {
    let mut table = tasks(&[1, 2]);
    assert!(table[0].try_set_state(TaskState::Asleep(5)));
    assert!(table[1].try_set_state(TaskState::Zombie));
    let mut rr = RoundRobin::new();
    rr.add_task(1);
    rr.add_task(2);
    assert_eq!(rr.next(&table), None);
    assert!(table[1].try_set_state(TaskState::Runnable));
    assert_eq!(rr.next(&table), Some(2));
}

#[test]
fn a_task_in_transition_counts_as_runnable() {
    let mut table = tasks(&[1, 2]);
    assert!(table[1].try_set_state(TaskState::Asleep(100)));
    assert!(table[1].try_acquire_state());
    let mut rr = RoundRobin::new();
    rr.add_task(1);
    rr.add_task(2);
    assert_eq!(rr.next(&table), Some(1));
    assert_eq!(rr.next(&table), Some(2));
    table[1].release_state();
    assert_eq!(rr.next(&table), Some(1));
    assert_eq!(rr.next(&table), Some(1));
}

#[test]
fn an_identifier_without_task_is_never_picked() {
    let table = tasks(&[1]);
    let mut rr = RoundRobin::new();
    rr.add_task(9);
    rr.add_task(1);
    assert_eq!(rr.next(&table), Some(1));
    assert_eq!(rr.next(&table), Some(1));
}

#[test]
fn remove_task_moves_the_last_entry_into_the_gap() {
    let table = tasks(&[1, 2, 3, 4]);
    let mut rr = RoundRobin::new();
    for pid in 1..=4 {
        rr.add_task(pid);
    }
    rr.remove_task(2);
    assert_eq!(rr.len(), 3);
    assert_eq!(rr.next(&table), Some(1));
    assert_eq!(rr.next(&table), Some(4));
    assert_eq!(rr.next(&table), Some(3));
    assert_eq!(rr.next(&table), Some(1));
}

#[test]
fn remove_task_of_a_stranger_changes_nothing() {
    let table = tasks(&[1, 2]);
    let mut rr = RoundRobin::new();
    rr.add_task(1);
    rr.add_task(2);
    rr.remove_task(5);
    assert_eq!(rr.len(), 2);
    assert_eq!(rr.next(&table), Some(1));
    assert_eq!(rr.next(&table), Some(2));
}

#[test]
fn cursor_beyond_the_end_starts_again_at_the_front() {
    let table = tasks(&[1, 2, 3]);
    let mut rr = RoundRobin::new();
    for pid in 1..=3 {
        rr.add_task(pid);
    }
    assert_eq!(rr.next(&table), Some(1));
    assert_eq!(rr.next(&table), Some(2));
    // The cursor is at position 2; shrink the queue to two entries.
    rr.remove_task(3);
    assert_eq!(rr.next(&table), Some(1));
    assert_eq!(rr.next(&table), Some(2));
}

#[test]
fn increment_index_wraps_at_the_end_of_the_queue() {
    let table = tasks(&[1, 2]);
    let mut rr = RoundRobin::new();
    rr.add_task(1);
    rr.add_task(2);
    rr.increment_index();
    assert_eq!(rr.next(&table), Some(2));
    rr.increment_index();
    assert_eq!(rr.next(&table), Some(2));
}

#[test]
fn find_task_gives_the_position() {
    let table = tasks(&[5, 6, 7]);
    assert_eq!(find_task(&table, 5), Some(0));
    assert_eq!(find_task(&table, 7), Some(2));
    assert_eq!(find_task(&table, 8), None);
    assert!(task_is_runnable(&table, 6));
    assert!(!task_is_runnable(&table, 8));
}
