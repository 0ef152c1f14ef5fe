use lib::banker::banker_detects_deadlock;
use lib::deadlock::semaphore_deadlock_detect;
use lib::process::{ProcessControlBlockInner, SemaphoreState};

fn process(task_count: usize, counts: &[Option<isize>], allocation: Vec<Vec<usize>>) -> ProcessControlBlockInner {
    ProcessControlBlockInner {
        task_count,
        mutex_list: Vec::new(),
        semaphore_list: counts.iter().map(|c| c.map(|count| SemaphoreState { count })).collect(),
        condvar_list: Vec::new(),
        mutex_allocation: Vec::new(),
        semaphore_allocation: allocation,
        deadlock_detect_enabled: true,
    }
}

#[test]
fn banker_textbook_state_is_safe() {
    // Five threads, three resource kinds; safe order 1, 3, 4, 0, 2.
    let available = vec![3, 3, 2];
    let allocation = vec![
        vec![0, 1, 0],
        vec![2, 0, 0],
        vec![3, 0, 2],
        vec![2, 1, 1],
        vec![0, 0, 2],
    ];
    let need = vec![
        vec![7, 4, 3],
        vec![1, 2, 2],
        vec![6, 0, 0],
        vec![0, 1, 1],
        vec![4, 3, 1],
    ];
    assert!(!banker_detects_deadlock(&available, &allocation, &need, 5));
}

#[test]
fn banker_unsafe_state_is_detected() {
    let available = vec![0, 0];
    let allocation = vec![vec![1, 0], vec![0, 1]];
    let need = vec![vec![0, 1], vec![1, 0]];
    assert!(banker_detects_deadlock(&available, &allocation, &need, 2));
}

#[test]
fn banker_order_matters_not() {
    // Thread 1 can only finish after thread 0, which comes first anyway;
    // thread 0 can only finish after thread 2, which comes last.
    let available = vec![1];
    let allocation = vec![vec![1], vec![0], vec![1]];
    let need = vec![vec![2], vec![3], vec![1]];
    assert!(!banker_detects_deadlock(&available, &allocation, &need, 3));
}

#[test]
fn banker_no_threads_is_safe() {
    let available = vec![0];
    let allocation: Vec<Vec<usize>> = Vec::new();
    let need: Vec<Vec<usize>> = Vec::new();
    assert!(!banker_detects_deadlock(&available, &allocation, &need, 0));
}

#[test]
fn semaphore_with_free_resource_never_deadlocks() {
    let mut p = process(2, &[Some(1)], vec![vec![0], vec![0]]);
    assert!(!semaphore_deadlock_detect(&mut p, 0, 0));
}

#[test]
fn semaphore_out_of_range_never_deadlocks() {
    let mut p = process(1, &[Some(0)], vec![vec![0]]);
    assert!(!semaphore_deadlock_detect(&mut p, 3, 0));
}

#[test]
fn semaphore_request_released_by_other_thread_is_safe() {
    // Thread 1 holds the only resource; it needs nothing more, so it can
    // finish and release it to thread 0.
    let mut p = process(2, &[Some(0)], vec![vec![0], vec![1]]);
    assert!(!semaphore_deadlock_detect(&mut p, 0, 0));
}

#[test]
fn semaphore_request_held_by_requester_deadlocks() {
    // Thread 0 holds the only resource and asks for another one.
    let mut p = process(2, &[Some(0)], vec![vec![1], vec![0]]);
    assert!(semaphore_deadlock_detect(&mut p, 0, 0));
    // The tables are left as they were.
    assert_eq!(p.semaphore_allocation, vec![vec![1], vec![0]]);
}

#[test]
fn semaphore_cross_request_is_safe_when_other_needs_nothing() {
    // Thread 0 holds semaphore 0, thread 1 holds semaphore 1; thread 0 asks
    // for semaphore 1. Thread 1 needs nothing and releases semaphore 1.
    let mut p = process(2, &[Some(0), Some(0)], vec![vec![1, 0], vec![0, 1]]);
    assert!(!semaphore_deadlock_detect(&mut p, 1, 0));
}

#[test]
fn semaphore_negative_counter_means_nothing_free() {
    // A negative counter means threads wait: no resource is free.
    let mut p = process(2, &[Some(-1)], vec![vec![0], vec![0]]);
    assert!(semaphore_deadlock_detect(&mut p, 0, 0));
}

#[test]
fn semaphore_negative_counter_with_other_holder_is_safe() {
    // Thread 1 holds a resource and needs nothing; it releases it to thread 0.
    let mut p = process(2, &[Some(-1)], vec![vec![0], vec![1]]);
    assert!(!semaphore_deadlock_detect(&mut p, 0, 0));
}

#[test]
fn semaphore_detection_monotone_in_free_and_held() {
    // Safe with a holder; stays safe when more is free or more is held.
    let mut p = process(3, &[Some(0), Some(0)], vec![vec![0, 0], vec![1, 0], vec![0, 0]]);
    assert!(!semaphore_deadlock_detect(&mut p, 0, 0));
    let mut more_free = process(3, &[Some(2), Some(1)], vec![vec![0, 0], vec![1, 0], vec![0, 0]]);
    assert!(!semaphore_deadlock_detect(&mut more_free, 0, 0));
    let mut more_held = process(3, &[Some(0), Some(0)], vec![vec![0, 3], vec![2, 0], vec![1, 1]]);
    assert!(!semaphore_deadlock_detect(&mut more_held, 0, 0));
}

#[test]
fn banker_more_available_keeps_safe() {
    let allocation = vec![vec![1, 0], vec![0, 1]];
    let need = vec![vec![0, 1], vec![1, 0]];
    assert!(!banker_detects_deadlock(&vec![0, 1], &allocation, &need, 2));
    assert!(!banker_detects_deadlock(&vec![5, 1], &allocation, &need, 2));
    assert!(banker_detects_deadlock(&vec![0, 0], &allocation, &need, 2));
}

#[test]
fn semaphore_empty_slot_counts_as_nothing_free() {
    let mut p = process(1, &[Some(0), None], vec![vec![0, 0]]);
    assert!(semaphore_deadlock_detect(&mut p, 0, 0));
}
