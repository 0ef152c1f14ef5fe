use lib::process::{Action, Condvar, MutexKind, Outcome, ProcessControlBlockInner, SemaphoreState};
use lib::sync::{
    mutex_deadlock_detect,
    sys_condvar_create,
    sys_condvar_signal,
    sys_condvar_wait,
    sys_enable_deadlock_detect,
    sys_mutex_create,
    sys_mutex_lock,
    sys_mutex_unlock,
    sys_semaphore_create,
    sys_semaphore_down,
    sys_semaphore_up,
    sys_sleep,
    DEADLOCK_REFUSED,
};

fn empty(task_count: usize) -> ProcessControlBlockInner {
    ProcessControlBlockInner {
        task_count,
        mutex_list: Vec::new(),
        semaphore_list: Vec::new(),
        condvar_list: Vec::new(),
        mutex_allocation: Vec::new(),
        semaphore_allocation: Vec::new(),
        deadlock_detect_enabled: false,
    }
}

#[test]
fn sleep_sets_deadline() {
    let out = sys_sleep(1000, 250);
    assert_eq!(out, Outcome { ret: 0, action: Action::SleepUntil { expire_ms: 1250 } });
}

#[test]
fn mutex_create_appends_then_reuses_lowest_free_slot() {
    let mut p = empty(1);
    assert_eq!(sys_mutex_create(&mut p, false), 0);
    assert_eq!(sys_mutex_create(&mut p, true), 1);
    assert_eq!(sys_mutex_create(&mut p, true), 2);
    assert_eq!(p.mutex_list, vec![Some(MutexKind::Spin), Some(MutexKind::Blocking), Some(MutexKind::Blocking)]);
    p.mutex_list[0] = None;
    p.mutex_list[1] = None;
    assert_eq!(sys_mutex_create(&mut p, false), 0);
    assert_eq!(p.mutex_list, vec![Some(MutexKind::Spin), None, Some(MutexKind::Blocking)]);
    assert_eq!(sys_mutex_create(&mut p, true), 1);
    assert_eq!(p.mutex_list.len(), 3);
}

#[test]
fn mutex_lock_without_detection_changes_nothing() {
    let mut p = empty(1);
    sys_mutex_create(&mut p, true);
    let out = sys_mutex_lock(&mut p, 0, 0);
    assert_eq!(out, Outcome { ret: 0, action: Action::LockMutex { mutex_id: 0 } });
    assert!(p.mutex_allocation.is_empty());
    // Without detection a second request is passed on to the mutex.
    let out = sys_mutex_lock(&mut p, 0, 0);
    assert_eq!(out.ret, 0);
}

#[test]
fn mutex_relock_with_detection_is_refused() {
    let mut p = empty(2);
    sys_mutex_create(&mut p, true);
    assert_eq!(sys_enable_deadlock_detect(&mut p, 1), 0);
    assert_eq!(p.mutex_allocation, vec![0]);
    let out = sys_mutex_lock(&mut p, 1, 0);
    assert_eq!(out, Outcome { ret: 0, action: Action::LockMutex { mutex_id: 0 } });
    assert_eq!(p.mutex_allocation, vec![2]);
    let out = sys_mutex_lock(&mut p, 0, 0);
    assert_eq!(out, Outcome { ret: DEADLOCK_REFUSED, action: Action::Nothing });
    assert_eq!(DEADLOCK_REFUSED, -0xDEAD);
    assert_eq!(p.mutex_allocation, vec![2]);
}

#[test]
fn mutex_unlock_releases_for_next_lock() {
    let mut p = empty(2);
    sys_mutex_create(&mut p, false);
    sys_enable_deadlock_detect(&mut p, 1);
    assert_eq!(sys_mutex_lock(&mut p, 0, 0).ret, 0);
    let out = sys_mutex_unlock(&mut p, 0);
    assert_eq!(out, Outcome { ret: 0, action: Action::UnlockMutex { mutex_id: 0 } });
    assert_eq!(p.mutex_allocation, vec![0]);
    assert_eq!(sys_mutex_lock(&mut p, 1, 0).ret, 0);
    assert_eq!(p.mutex_allocation, vec![2]);
}

#[test]
fn mutex_lock_grows_allocation_table() {
    let mut p = empty(1);
    sys_enable_deadlock_detect(&mut p, 1);
    sys_mutex_create(&mut p, true);
    sys_mutex_create(&mut p, true);
    sys_mutex_create(&mut p, true);
    assert!(p.mutex_allocation.is_empty());
    assert_eq!(sys_mutex_lock(&mut p, 4, 2).ret, 0);
    assert_eq!(p.mutex_allocation, vec![0, 0, 5]);
}

#[test]
fn mutex_deadlock_detect_reads_allocation() {
    let mut p = empty(1);
    p.mutex_list = vec![Some(MutexKind::Spin), Some(MutexKind::Spin)];
    p.mutex_allocation = vec![0, 3];
    assert!(!mutex_deadlock_detect(&mut p, 0, 0));
    assert!(mutex_deadlock_detect(&mut p, 1, 0));
    assert!(!mutex_deadlock_detect(&mut p, 7, 0));
}

#[test]
fn semaphore_create_reuses_free_slot() {
    let mut p = empty(1);
    assert_eq!(sys_semaphore_create(&mut p, 2), 0);
    assert_eq!(sys_semaphore_create(&mut p, 5), 1);
    p.semaphore_list[0] = None;
    assert_eq!(sys_semaphore_create(&mut p, 7), 0);
    assert_eq!(p.semaphore_list, vec![Some(SemaphoreState { count: 7 }), Some(SemaphoreState { count: 5 })]);
}

#[test]
fn semaphore_down_and_up_without_detection() {
    let mut p = empty(1);
    sys_semaphore_create(&mut p, 1);
    assert_eq!(sys_semaphore_down(&mut p, 0, 0), Outcome { ret: 0, action: Action::SemaphoreDown { sem_id: 0 } });
    assert_eq!(sys_semaphore_up(&mut p, 0, 0), Outcome { ret: 0, action: Action::SemaphoreUp { sem_id: 0 } });
    assert!(p.semaphore_allocation.is_empty());
}

#[test]
fn semaphore_down_records_and_up_releases() {
    let mut p = empty(2);
    sys_semaphore_create(&mut p, 1);
    sys_enable_deadlock_detect(&mut p, 1);
    assert_eq!(p.semaphore_allocation, vec![vec![0], vec![0]]);
    let out = sys_semaphore_down(&mut p, 1, 0);
    assert_eq!(out, Outcome { ret: 0, action: Action::SemaphoreDown { sem_id: 0 } });
    assert_eq!(p.semaphore_allocation, vec![vec![0], vec![1]]);
    let out = sys_semaphore_up(&mut p, 1, 0);
    assert_eq!(out, Outcome { ret: 0, action: Action::SemaphoreUp { sem_id: 0 } });
    assert_eq!(p.semaphore_allocation, vec![vec![0], vec![0]]);
    // Releasing what is not held changes nothing.
    sys_semaphore_up(&mut p, 1, 0);
    assert_eq!(p.semaphore_allocation, vec![vec![0], vec![0]]);
}

#[test]
fn semaphore_down_refused_when_requester_holds_the_only_resource() {
    let mut p = empty(2);
    sys_semaphore_create(&mut p, 1);
    sys_enable_deadlock_detect(&mut p, 1);
    assert_eq!(sys_semaphore_down(&mut p, 0, 0).ret, 0);
    // The kernel lowered the counter.
    p.semaphore_list[0] = Some(SemaphoreState { count: 0 });
    let out = sys_semaphore_down(&mut p, 0, 0);
    assert_eq!(out, Outcome { ret: DEADLOCK_REFUSED, action: Action::Nothing });
    assert_eq!(p.semaphore_allocation, vec![vec![1], vec![0]]);
}

#[test]
fn semaphore_down_grows_rows_for_new_thread() {
    let mut p = empty(3);
    sys_semaphore_create(&mut p, 3);
    sys_semaphore_create(&mut p, 3);
    p.deadlock_detect_enabled = true;
    assert_eq!(sys_semaphore_down(&mut p, 2, 1).ret, 0);
    assert_eq!(p.semaphore_allocation, vec![vec![0, 0], vec![0, 0], vec![0, 1]]);
}

#[test]
fn semaphore_down_pads_short_row() {
    let mut p = empty(1);
    sys_semaphore_create(&mut p, 3);
    sys_semaphore_create(&mut p, 3);
    sys_semaphore_create(&mut p, 3);
    p.deadlock_detect_enabled = true;
    p.semaphore_allocation = vec![vec![4]];
    assert_eq!(sys_semaphore_down(&mut p, 0, 2).ret, 0);
    assert_eq!(p.semaphore_allocation, vec![vec![4, 0, 1]]);
}

#[test]
fn condvar_create_signal_wait() {
    let mut p = empty(1);
    assert_eq!(sys_condvar_create(&mut p), 0);
    assert_eq!(sys_condvar_create(&mut p), 1);
    p.condvar_list[0] = None;
    assert_eq!(sys_condvar_create(&mut p), 0);
    assert_eq!(p.condvar_list, vec![Some(Condvar {}), Some(Condvar {})]);
    assert_eq!(sys_condvar_signal(&p, 1), Outcome { ret: 0, action: Action::SignalCondvar { condvar_id: 1 } });
    sys_mutex_create(&mut p, true);
    assert_eq!(
        sys_condvar_wait(&p, 0, 0),
        Outcome { ret: 0, action: Action::WaitCondvar { condvar_id: 0, mutex_id: 0 } }
    );
}

#[test]
fn enable_rejects_invalid_value() {
    let mut p = empty(2);
    sys_mutex_create(&mut p, true);
    assert_eq!(sys_enable_deadlock_detect(&mut p, 2), -1);
    assert!(!p.deadlock_detect_enabled);
    assert!(p.mutex_allocation.is_empty());
    assert!(p.semaphore_allocation.is_empty());
}

#[test]
fn enable_then_disable_keeps_tables() {
    let mut p = empty(2);
    sys_mutex_create(&mut p, true);
    sys_semaphore_create(&mut p, 1);
    assert_eq!(sys_enable_deadlock_detect(&mut p, 1), 0);
    assert!(p.deadlock_detect_enabled);
    assert_eq!(p.mutex_allocation, vec![0]);
    assert_eq!(p.semaphore_allocation, vec![vec![0], vec![0]]);
    assert_eq!(sys_enable_deadlock_detect(&mut p, 0), 0);
    assert!(!p.deadlock_detect_enabled);
    assert_eq!(p.semaphore_allocation, vec![vec![0], vec![0]]);
    // Switching on again keeps the existing tables.
    p.mutex_allocation = vec![9];
    assert_eq!(sys_enable_deadlock_detect(&mut p, 1), 0);
    assert_eq!(p.mutex_allocation, vec![9]);
}

#[test]
fn lock_unlock_round_trip_pads_allocation() {
    let mut p = empty(1);
    sys_mutex_create(&mut p, true);
    sys_mutex_create(&mut p, true);
    p.deadlock_detect_enabled = true;
    p.mutex_allocation = vec![0];
    assert_eq!(sys_mutex_lock(&mut p, 0, 1).ret, 0);
    assert_eq!(p.mutex_allocation, vec![0, 1]);
    sys_mutex_unlock(&mut p, 1);
    assert_eq!(p.mutex_allocation, vec![0, 0]);
}

#[test]
fn down_up_round_trip_restores_tables() {
    let mut p = empty(2);
    sys_semaphore_create(&mut p, 2);
    sys_enable_deadlock_detect(&mut p, 1);
    p.semaphore_allocation = vec![vec![1], vec![3]];
    assert_eq!(sys_semaphore_down(&mut p, 1, 0).ret, 0);
    assert_eq!(p.semaphore_allocation, vec![vec![1], vec![4]]);
    sys_semaphore_up(&mut p, 1, 0);
    assert_eq!(p.semaphore_allocation, vec![vec![1], vec![3]]);
}
