//! The synchronisation system calls: sleeping, mutexes, semaphores, condition
//! variables and the switch for deadlock detection.
//!
//! Each call takes the tables of the calling process and what the kernel
//! knows of the caller (its thread id, the time), updates the tables, and
//! returns the value for user space together with the blocking operation the
//! kernel has to perform before it returns.
use vstd::prelude::*;
use crate::deadlock::{detection_defined, semaphore_deadlock_detect, semaphore_request_deadlocks};
use crate::process::{
    pad_rows,
    pad_zeros,
    zeros,
    Action,
    Condvar,
    MutexKind,
    Outcome,
    ProcessControlBlockInner,
    ProcessModel,
    SemaphoreState,
};
use crate::slots::{place, place_in_free_slot, slot_for};

verus! {

/// The value a lock or semaphore request returns when granting it could
/// deadlock the process.
pub const DEADLOCK_REFUSED: isize = -0xDEAD;

/// The outcome of a call that returns `0` and needs no further work.
pub open spec fn done_with(action: Action) -> Outcome {
    Outcome { ret: 0, action }
}

// ----------------------------------------------------------------------------
// Sleeping

/// Sleep system call: the calling task is to be woken `ms` milliseconds after
/// `now_ms`.
pub fn sys_sleep(now_ms: usize, ms: usize) -> (out: Outcome)
    requires
        now_ms + ms <= usize::MAX,
    ensures
        out == done_with(Action::SleepUntil { expire_ms: (now_ms + ms) as usize }),
{
    let expire_ms = now_ms + ms;
    Outcome { ret: 0, action: Action::SleepUntil { expire_ms } }
}

// ----------------------------------------------------------------------------
// Helpers on the allocation tables

/// Appends zeros to `v` up to length `len`.
fn pad_with_zeros(v: &mut Vec<usize>, len: usize)
    ensures
        final(v)@ == pad_zeros(old(v)@, len as int),
{
    let ghost orig = v@;
    while v.len() < len
        invariant
            orig.len() <= v@.len(),
            orig.len() < v@.len() ==> v@.len() <= len,
            v@.subrange(0, orig.len() as int) == orig,
            forall|x: int| orig.len() <= x < v@.len() ==> v@[x] == 0,
        decreases len - v.len(),
    {
        v.push(0);
        assert(v@.subrange(0, orig.len() as int) =~= orig);
    }
    proof {
        if len <= orig.len() {
            assert(v@ =~= orig);
        } else {
            assert(v@ =~= pad_zeros(orig, len as int));
        }
    }
}

/// Appends rows of `width` zeros to `rows` up to `len` rows.
fn pad_rows_with_zeros(rows: &mut Vec<Vec<usize>>, len: usize, width: usize)
    ensures
        final(rows)@.map_values(|r: Vec<usize>| r@) == pad_rows(
            old(rows)@.map_values(|r: Vec<usize>| r@),
            len as int,
            width as int,
        ),
{
    let ghost orig = rows@.map_values(|r: Vec<usize>| r@);
    while rows.len() < len
        invariant
            orig.len() <= rows@.len(),
            orig.len() < rows@.len() ==> rows@.len() <= len,
            forall|x: int| 0 <= x < orig.len() ==> #[trigger] rows@[x]@ == orig[x],
            forall|x: int|
                orig.len() <= x < rows@.len() ==> #[trigger] rows@[x]@ == Seq::new(
                    width as nat,
                    |y: int| 0usize,
                ),
        decreases len - rows.len(),
    {
        let row = zeros(width);
        rows.push(row);
    }
    proof {
        if len <= orig.len() {
            assert(rows@.map_values(|r: Vec<usize>| r@) =~= orig);
        } else {
            assert(rows@.map_values(|r: Vec<usize>| r@) =~= pad_rows(orig, len as int, width as int));
        }
    }
}

// ----------------------------------------------------------------------------
// Mutexes

/// The tables with `a` as the mutex allocation.
pub open spec fn with_mutex_allocation(p: ProcessModel, a: Seq<usize>) -> ProcessModel {
    ProcessModel { mutex_allocation: a, ..p }
}

/// The tables with `a` as the semaphore allocation.
pub open spec fn with_semaphore_allocation(p: ProcessModel, a: Seq<Seq<usize>>) -> ProcessModel {
    ProcessModel { semaphore_allocation: a, ..p }
}

/// Mutex `mutex_id` exists and some thread holds it.
pub open spec fn mutex_held(p: ProcessModel, mutex_id: int) -> bool {
    &&& 0 <= mutex_id < p.mutex_list.len()
    &&& p.mutex_allocation[mutex_id] != 0
}

/// Whether a request for mutex `mutex_id` could deadlock: it does exactly
/// when the mutex exists and some thread, the caller included, holds it.
pub fn mutex_deadlock_detect(
    process_inner: &mut ProcessControlBlockInner,
    mutex_id: usize,
    _tid: usize,
) -> (deadlock: bool)
    requires
        mutex_id < old(process_inner).mutex_list.len() ==> mutex_id < old(process_inner).mutex_allocation.len(),
    ensures
        *final(process_inner) == *old(process_inner),
        deadlock == mutex_held(old(process_inner)@, mutex_id as int),
        deadlock == (mutex_id < old(process_inner).mutex_list.len()
            && old(process_inner).mutex_allocation@[mutex_id as int] != 0),
{
    if mutex_id >= process_inner.mutex_list.len() {
        return false;
    }
    if process_inner.mutex_allocation[mutex_id] != 0 {
        return true;
    }
    false
}

/// Mutex create system call: a spinning mutex when `blocking` is false, a
/// blocking one otherwise.
pub open spec fn mutex_kind(blocking: bool) -> MutexKind {
    if blocking {
        MutexKind::Blocking
    } else {
        MutexKind::Spin
    }
}

/// Mutex create system call: places the new mutex in the lowest free slot
/// (or a new slot at the end) and returns the slot's index.
pub fn sys_mutex_create(process_inner: &mut ProcessControlBlockInner, blocking: bool) -> (id: isize)
    requires
        old(process_inner).mutex_list.len() < isize::MAX,
    ensures
        id == slot_for(old(process_inner)@.mutex_list),
        forall|x: int|
            0 <= x < old(process_inner)@.mutex_list.len() && x != id ==> #[trigger] final(process_inner)@.mutex_list[x] == old(process_inner)@.mutex_list[x],
        final(process_inner)@.mutex_list[id as int] == Some(mutex_kind(blocking)),
        final(process_inner)@ == (ProcessModel {
            mutex_list: place(old(process_inner)@.mutex_list, mutex_kind(blocking)),
            ..old(process_inner)@
        }),
{
    let kind = if !blocking {
        MutexKind::Spin
    } else {
        MutexKind::Blocking
    };
    let id = place_in_free_slot(&mut process_inner.mutex_list, kind);
    id as isize
}

/// The mutex allocation once it has an entry for mutex `mutex_id`.
pub open spec fn mutex_lock_padded(p: ProcessModel, mutex_id: int) -> ProcessModel {
    with_mutex_allocation(p, pad_zeros(p.mutex_allocation, mutex_id + 1))
}

/// A lock request is refused: detection is on and the mutex is held.
pub open spec fn mutex_lock_refused(p: ProcessModel, mutex_id: int) -> bool {
    &&& p.deadlock_detect_enabled
    &&& mutex_held(mutex_lock_padded(p, mutex_id), mutex_id)
}

/// The tables after thread `tid` asked for mutex `mutex_id`.
pub open spec fn mutex_lock_post(p: ProcessModel, tid: int, mutex_id: int) -> ProcessModel {
    if !p.deadlock_detect_enabled {
        p
    } else if mutex_lock_refused(p, mutex_id) {
        mutex_lock_padded(p, mutex_id)
    } else {
        with_mutex_allocation(
            p,
            pad_zeros(p.mutex_allocation, mutex_id + 1).update(mutex_id, (tid + 1) as usize),
        )
    }
}

/// What a lock request returns and leaves to the kernel.
pub open spec fn mutex_lock_outcome(p: ProcessModel, mutex_id: int) -> Outcome {
    if mutex_lock_refused(p, mutex_id) {
        Outcome { ret: DEADLOCK_REFUSED, action: Action::Nothing }
    } else {
        done_with(Action::LockMutex { mutex_id: mutex_id as usize })
    }
}

/// Mutex lock system call of thread `tid`.
///
/// With deadlock detection on, a request for a mutex that some thread holds
/// is refused with `DEADLOCK_REFUSED`; otherwise the mutex is recorded as
/// held by `tid` and the kernel is to lock it.
pub fn sys_mutex_lock(process_inner: &mut ProcessControlBlockInner, tid: usize, mutex_id: usize) -> (out:
    Outcome)
    requires
        mutex_id < old(process_inner).mutex_list.len(),
        old(process_inner).mutex_list@[mutex_id as int] is Some || mutex_lock_refused(
            old(process_inner)@,
            mutex_id as int,
        ),
        old(process_inner).deadlock_detect_enabled && !mutex_lock_refused(
            old(process_inner)@,
            mutex_id as int,
        ) ==> tid < usize::MAX,
    ensures
        final(process_inner)@ == mutex_lock_post(old(process_inner)@, tid as int, mutex_id as int),
        out == mutex_lock_outcome(old(process_inner)@, mutex_id as int),
        out.ret == 0 ==> out.action == (Action::LockMutex { mutex_id }),
        out.ret != 0 ==> out == (Outcome { ret: DEADLOCK_REFUSED, action: Action::Nothing }),
        !old(process_inner).deadlock_detect_enabled ==> out.ret == 0 && final(process_inner)@ == old(process_inner)@,
        final(process_inner)@ == (ProcessModel {
            mutex_allocation: final(process_inner)@.mutex_allocation,
            ..old(process_inner)@
        }),
        forall|x: int|
            0 <= x < old(process_inner)@.mutex_allocation.len() && x != mutex_id ==> #[trigger] final(process_inner)@.mutex_allocation[x]
                == old(process_inner)@.mutex_allocation[x],
        old(process_inner).deadlock_detect_enabled && out.ret == 0 ==> final(process_inner)@.mutex_allocation[mutex_id as int]
            == tid + 1,
{
    if process_inner.deadlock_detect_enabled {
        if process_inner.mutex_allocation.len() <= mutex_id {
            pad_with_zeros(&mut process_inner.mutex_allocation, mutex_id + 1);
        }
        assert(process_inner.mutex_allocation@ == pad_zeros(
            old(process_inner).mutex_allocation@,
            mutex_id + 1,
        ));
        if mutex_deadlock_detect(process_inner, mutex_id, tid) {
            return Outcome { ret: DEADLOCK_REFUSED, action: Action::Nothing };
        }
        process_inner.mutex_allocation.set(mutex_id, tid + 1);
    }
    Outcome { ret: 0, action: Action::LockMutex { mutex_id } }
}

/// The tables after mutex `mutex_id` has been released.
pub open spec fn mutex_unlock_post(p: ProcessModel, mutex_id: int) -> ProcessModel {
    if p.deadlock_detect_enabled && mutex_id < p.mutex_allocation.len() {
        with_mutex_allocation(p, p.mutex_allocation.update(mutex_id, 0))
    } else {
        p
    }
}

/// Mutex unlock system call: with deadlock detection on, the mutex is
/// recorded as free; the kernel is to unlock it.
pub fn sys_mutex_unlock(process_inner: &mut ProcessControlBlockInner, mutex_id: usize) -> (out:
    Outcome)
    requires
        mutex_id < old(process_inner).mutex_list.len(),
        old(process_inner).mutex_list@[mutex_id as int] is Some,
    ensures
        final(process_inner)@ == mutex_unlock_post(old(process_inner)@, mutex_id as int),
        out == done_with(Action::UnlockMutex { mutex_id }),
        final(process_inner)@ == (ProcessModel {
            mutex_allocation: final(process_inner)@.mutex_allocation,
            ..old(process_inner)@
        }),
        final(process_inner)@.mutex_allocation.len() == old(process_inner)@.mutex_allocation.len(),
        forall|x: int|
            0 <= x < old(process_inner)@.mutex_allocation.len() && x != mutex_id ==> #[trigger] final(process_inner)@.mutex_allocation[x]
                == old(process_inner)@.mutex_allocation[x],
        old(process_inner).deadlock_detect_enabled && mutex_id < old(process_inner)@.mutex_allocation.len()
            ==> final(process_inner)@.mutex_allocation[mutex_id as int] == 0,
        !old(process_inner).deadlock_detect_enabled ==> final(process_inner)@ == old(process_inner)@,
{
    if process_inner.deadlock_detect_enabled && mutex_id < process_inner.mutex_allocation.len() {
        process_inner.mutex_allocation.set(mutex_id, 0);
    }
    Outcome { ret: 0, action: Action::UnlockMutex { mutex_id } }
}

// ----------------------------------------------------------------------------
// Semaphores

/// Semaphore create system call: places a semaphore whose counter starts at
/// `res_count` in the lowest free slot (or a new slot at the end) and returns
/// the slot's index.
pub fn sys_semaphore_create(process_inner: &mut ProcessControlBlockInner, res_count: usize) -> (id:
    isize)
    requires
        old(process_inner).semaphore_list.len() < isize::MAX,
    ensures
        id == slot_for(old(process_inner)@.semaphore_list),
        forall|x: int|
            0 <= x < old(process_inner)@.semaphore_list.len() && x != id ==> #[trigger] final(process_inner)@.semaphore_list[x] == old(process_inner)@.semaphore_list[x],
        final(process_inner)@ == (ProcessModel {
            semaphore_list: place(
                old(process_inner)@.semaphore_list,
                SemaphoreState { count: res_count as isize },
            ),
            ..old(process_inner)@
        }),
{
    let sem = SemaphoreState { count: #[verifier::truncate] (res_count as isize) };
    let id = place_in_free_slot(&mut process_inner.semaphore_list, sem);
    id as isize
}

/// The semaphore allocation records one resource of `sem_id` held by `tid`.
pub open spec fn holds_semaphore(a: Seq<Seq<usize>>, tid: int, sem_id: int) -> bool {
    &&& 0 <= tid < a.len()
    &&& 0 <= sem_id < a[tid].len()
    &&& a[tid][sem_id] > 0
}

/// The tables after thread `tid` released one resource of `sem_id`.
pub open spec fn semaphore_up_post(p: ProcessModel, tid: int, sem_id: int) -> ProcessModel {
    let a = p.semaphore_allocation;
    if p.deadlock_detect_enabled && holds_semaphore(a, tid, sem_id) {
        with_semaphore_allocation(
            p,
            a.update(tid, a[tid].update(sem_id, (a[tid][sem_id] - 1) as usize)),
        )
    } else {
        p
    }
}

/// Semaphore up system call of thread `tid`: with deadlock detection on, one
/// resource of the semaphore that `tid` holds is recorded as released; the
/// kernel is to raise the semaphore.
pub fn sys_semaphore_up(process_inner: &mut ProcessControlBlockInner, tid: usize, sem_id: usize) -> (out:
    Outcome)
    requires
        sem_id < old(process_inner).semaphore_list.len(),
        old(process_inner).semaphore_list@[sem_id as int] is Some,
    ensures
        final(process_inner)@ == semaphore_up_post(old(process_inner)@, tid as int, sem_id as int),
        out == done_with(Action::SemaphoreUp { sem_id }),
        final(process_inner)@.semaphore_allocation.len() == old(process_inner)@.semaphore_allocation.len(),
        forall|x: int|
            0 <= x < old(process_inner)@.semaphore_allocation.len() && x != tid ==> #[trigger] final(process_inner)@.semaphore_allocation[x] == old(process_inner)@.semaphore_allocation[x],
        !holds_semaphore(old(process_inner)@.semaphore_allocation, tid as int, sem_id as int)
            ==> final(process_inner)@ == old(process_inner)@,
{
    if process_inner.deadlock_detect_enabled {
        if tid < process_inner.semaphore_allocation.len() && sem_id
            < process_inner.semaphore_allocation[tid].len()
            && process_inner.semaphore_allocation[tid][sem_id] > 0 {
            let ghost p = process_inner@;
            let old_count = process_inner.semaphore_allocation[tid][sem_id];
            process_inner.semaphore_allocation[tid].set(sem_id, old_count - 1);
            assert(process_inner@ =~= semaphore_up_post(p, tid as int, sem_id as int));
        }
    }
    Outcome { ret: 0, action: Action::SemaphoreUp { sem_id } }
}

/// The tables once the semaphore allocation has a row for thread `tid`.
pub open spec fn semaphore_down_padded(p: ProcessModel, tid: int) -> ProcessModel {
    with_semaphore_allocation(
        p,
        pad_rows(p.semaphore_allocation, tid + 1, p.semaphore_list.len() as int),
    )
}

/// A semaphore request is refused: detection is on and granting it could
/// deadlock the process.
pub open spec fn semaphore_down_refused(p: ProcessModel, tid: int, sem_id: int) -> bool {
    &&& p.deadlock_detect_enabled
    &&& semaphore_request_deadlocks(semaphore_down_padded(p, tid), sem_id, tid)
}

/// Row `tid` of `a` as it stands before the request is recorded: padded with
/// zeros to `width` entries when it has no entry for `sem_id`.
pub open spec fn request_row(a: Seq<Seq<usize>>, tid: int, sem_id: int, width: int) -> Seq<usize> {
    if a[tid].len() <= sem_id {
        pad_zeros(a[tid], width)
    } else {
        a[tid]
    }
}

/// `a` with one more resource of `sem_id` held by `tid`.
pub open spec fn record_request(a: Seq<Seq<usize>>, tid: int, sem_id: int, width: int) -> Seq<
    Seq<usize>,
> {
    let row = request_row(a, tid, sem_id, width);
    a.update(tid, row.update(sem_id, (row[sem_id] + 1) as usize))
}

/// The tables after thread `tid` asked for one resource of `sem_id`.
pub open spec fn semaphore_down_post(p: ProcessModel, tid: int, sem_id: int) -> ProcessModel {
    let padded = semaphore_down_padded(p, tid);
    if !p.deadlock_detect_enabled {
        p
    } else if semaphore_down_refused(p, tid, sem_id) {
        padded
    } else {
        with_semaphore_allocation(
            p,
            record_request(
                padded.semaphore_allocation,
                tid,
                sem_id,
                p.semaphore_list.len() as int,
            ),
        )
    }
}

/// What a semaphore request returns and leaves to the kernel.
pub open spec fn semaphore_down_outcome(p: ProcessModel, tid: int, sem_id: int) -> Outcome {
    if semaphore_down_refused(p, tid, sem_id) {
        Outcome { ret: DEADLOCK_REFUSED, action: Action::Nothing }
    } else {
        done_with(Action::SemaphoreDown { sem_id: sem_id as usize })
    }
}

/// Semaphore down system call of thread `tid`.
///
/// With deadlock detection on, the allocation table first gets a row for
/// `tid`; a request that could deadlock the process (see
/// `semaphore_deadlock_detect`) is refused with `DEADLOCK_REFUSED`, any other
/// is recorded as one more resource of the semaphore held by `tid`. The
/// kernel is then to lower the semaphore.
pub fn sys_semaphore_down(process_inner: &mut ProcessControlBlockInner, tid: usize, sem_id: usize) -> (out:
    Outcome)
    requires
        sem_id < old(process_inner).semaphore_list.len(),
        old(process_inner).semaphore_list@[sem_id as int] is Some,
        old(process_inner).deadlock_detect_enabled ==> {
            &&& tid < usize::MAX
            &&& detection_defined(
                semaphore_down_padded(old(process_inner)@, tid as int),
                sem_id as int,
                tid as int,
            )
        },
        old(process_inner).deadlock_detect_enabled && !semaphore_down_refused(
            old(process_inner)@,
            tid as int,
            sem_id as int,
        ) ==> request_row(
            semaphore_down_padded(old(process_inner)@, tid as int).semaphore_allocation,
            tid as int,
            sem_id as int,
            old(process_inner).semaphore_list.len() as int,
        )[sem_id as int] < usize::MAX,
    ensures
        final(process_inner)@ == semaphore_down_post(old(process_inner)@, tid as int, sem_id as int),
        out == semaphore_down_outcome(old(process_inner)@, tid as int, sem_id as int),
        out.ret == 0 ==> out.action == (Action::SemaphoreDown { sem_id }),
        out.ret != 0 ==> out == (Outcome { ret: DEADLOCK_REFUSED, action: Action::Nothing }),
        !old(process_inner).deadlock_detect_enabled ==> out.ret == 0 && final(process_inner)@ == old(process_inner)@,
        forall|x: int|
            0 <= x < old(process_inner)@.semaphore_allocation.len() && x != tid ==> #[trigger] final(process_inner)@.semaphore_allocation[x] == old(process_inner)@.semaphore_allocation[x],
{
    if process_inner.deadlock_detect_enabled {
        let width = process_inner.semaphore_list.len();
        pad_rows_with_zeros(&mut process_inner.semaphore_allocation, tid + 1, width);
        assert(process_inner@ =~= semaphore_down_padded(old(process_inner)@, tid as int));
        assert(process_inner.semaphore_allocation@.len() == process_inner@.semaphore_allocation.len());
        assert(tid < process_inner.semaphore_allocation.len());
        if semaphore_deadlock_detect(process_inner, sem_id, tid) {
            return Outcome { ret: DEADLOCK_REFUSED, action: Action::Nothing };
        }
        if sem_id < process_inner.semaphore_list.len() {
            let ghost a = process_inner@.semaphore_allocation;
            if process_inner.semaphore_allocation[tid].len() <= sem_id {
                pad_with_zeros(&mut process_inner.semaphore_allocation[tid], width);
            }
            assert(process_inner.semaphore_allocation@[tid as int]@ == request_row(
                a,
                tid as int,
                sem_id as int,
                width as int,
            ));
            let held = process_inner.semaphore_allocation[tid][sem_id];
            process_inner.semaphore_allocation[tid].set(sem_id, held + 1);
            assert(process_inner@.semaphore_allocation =~= record_request(
                a,
                tid as int,
                sem_id as int,
                width as int,
            ));
        }
    }
    Outcome { ret: 0, action: Action::SemaphoreDown { sem_id } }
}

// ----------------------------------------------------------------------------
// Condition variables

/// Condition variable create system call: places the new condition variable
/// in the lowest free slot (or a new slot at the end) and returns the slot's
/// index.
pub fn sys_condvar_create(process_inner: &mut ProcessControlBlockInner) -> (id: isize)
    requires
        old(process_inner).condvar_list.len() < isize::MAX,
    ensures
        id == slot_for(old(process_inner)@.condvar_list),
        forall|x: int|
            0 <= x < old(process_inner)@.condvar_list.len() && x != id ==> #[trigger] final(process_inner)@.condvar_list[x] == old(process_inner)@.condvar_list[x],
        final(process_inner)@ == (ProcessModel {
            condvar_list: place(old(process_inner)@.condvar_list, Condvar {  }),
            ..old(process_inner)@
        }),
{
    let id = place_in_free_slot(&mut process_inner.condvar_list, Condvar {  });
    id as isize
}

/// Condition variable signal system call: the kernel is to signal it.
pub fn sys_condvar_signal(process_inner: &ProcessControlBlockInner, condvar_id: usize) -> (out:
    Outcome)
    requires
        condvar_id < process_inner.condvar_list.len(),
        process_inner.condvar_list@[condvar_id as int] is Some,
    ensures
        out == done_with(Action::SignalCondvar { condvar_id }),
{
    Outcome { ret: 0, action: Action::SignalCondvar { condvar_id } }
}

/// Condition variable wait system call: the kernel is to wait on the
/// condition variable, releasing the mutex meanwhile.
pub fn sys_condvar_wait(
    process_inner: &ProcessControlBlockInner,
    condvar_id: usize,
    mutex_id: usize,
) -> (out: Outcome)
    requires
        condvar_id < process_inner.condvar_list.len(),
        process_inner.condvar_list@[condvar_id as int] is Some,
        mutex_id < process_inner.mutex_list.len(),
        process_inner.mutex_list@[mutex_id as int] is Some,
    ensures
        out == done_with(Action::WaitCondvar { condvar_id, mutex_id }),
{
    Outcome { ret: 0, action: Action::WaitCondvar { condvar_id, mutex_id } }
}

// ----------------------------------------------------------------------------
// Deadlock detection switch

/// The tables after deadlock detection has been switched by `enabled`.
pub open spec fn enable_post(p: ProcessModel, enabled: int) -> ProcessModel {
    if enabled != 0 && enabled != 1 {
        p
    } else {
        let on = enabled == 1;
        ProcessModel {
            deadlock_detect_enabled: on,
            mutex_allocation: if on && p.mutex_allocation.len() == 0 {
                Seq::new(p.mutex_list.len(), |x: int| 0usize)
            } else {
                p.mutex_allocation
            },
            semaphore_allocation: if on && p.semaphore_allocation.len() == 0 {
                Seq::new(
                    p.task_count as nat,
                    |t: int| Seq::new(p.semaphore_list.len(), |x: int| 0usize),
                )
            } else {
                p.semaphore_allocation
            },
            ..p
        }
    }
}

/// Deadlock detection switch system call: `1` switches detection on, `0`
/// off, and any other value is refused with `-1`. Switching it on gives
/// empty allocation tables one zero entry per mutex and one row of zeros per
/// task.
pub fn sys_enable_deadlock_detect(process_inner: &mut ProcessControlBlockInner, enabled: usize) -> (r:
    isize)
    ensures
        r == if enabled != 0 && enabled != 1 {
            -1isize
        } else {
            0isize
        },
        final(process_inner)@ == enable_post(old(process_inner)@, enabled as int),
        old(process_inner)@.mutex_allocation.len() > 0 ==> final(process_inner)@.mutex_allocation == old(process_inner)@.mutex_allocation,
        old(process_inner)@.semaphore_allocation.len() > 0 ==> final(process_inner)@.semaphore_allocation
            == old(process_inner)@.semaphore_allocation,
        final(process_inner)@.mutex_list == old(process_inner)@.mutex_list,
        final(process_inner)@.semaphore_list == old(process_inner)@.semaphore_list,
        final(process_inner)@.condvar_list == old(process_inner)@.condvar_list,
{
    if enabled != 0 && enabled != 1 {
        return -1;
    }
    process_inner.deadlock_detect_enabled = enabled == 1;
    if process_inner.deadlock_detect_enabled {
        if process_inner.mutex_allocation.len() == 0 {
            process_inner.mutex_allocation = zeros(process_inner.mutex_list.len());
        }
        if process_inner.semaphore_allocation.len() == 0 {
            let thread_count = process_inner.task_count;
            let semaphore_count = process_inner.semaphore_list.len();
            let mut rows: Vec<Vec<usize>> = Vec::new();
            pad_rows_with_zeros(&mut rows, thread_count, semaphore_count);
            process_inner.semaphore_allocation = rows;
        }
    }
    assert(process_inner@ =~= enable_post(old(process_inner)@, enabled as int));
    0
}

} // verus!
