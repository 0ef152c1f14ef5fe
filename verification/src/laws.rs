//! Properties that relate several system calls to each other.
use vstd::prelude::*;
use crate::banker::{
    can_finish,
    entry,
    is_complete_safe_sequence,
    is_safe_state,
    members,
    released,
    work_after,
};
use crate::deadlock::{detection_runs, request_need, semaphore_request_deadlocks, semaphore_work};
use crate::process::{pad_rows, pad_zeros, Action, Outcome, ProcessModel};
use crate::slots::{is_first_free, place, slot_for};
use crate::sync::{
    enable_post,
    mutex_lock_outcome,
    mutex_lock_post,
    mutex_lock_padded,
    mutex_lock_refused,
    mutex_unlock_post,
    request_row,
    semaphore_down_outcome,
    semaphore_down_padded,
    semaphore_down_post,
    semaphore_down_refused,
    semaphore_up_post,
    with_mutex_allocation,
    with_semaphore_allocation,
    DEADLOCK_REFUSED,
};

verus! {

/// With deadlock detection on, once a thread has been granted a mutex, the
/// next request for that mutex, by any thread, is refused as a deadlock.
pub proof fn lemma_held_mutex_is_refused(p: ProcessModel, tid: int, other: int, mutex_id: int)
    requires
        p.deadlock_detect_enabled,
        0 <= mutex_id < p.mutex_list.len(),
        0 <= tid < usize::MAX,
        !mutex_lock_refused(p, mutex_id),
    ensures
        mutex_lock_refused(mutex_lock_post(p, tid, mutex_id), mutex_id),
        mutex_lock_outcome(mutex_lock_post(p, tid, mutex_id), mutex_id).ret == DEADLOCK_REFUSED,
        mutex_lock_post(mutex_lock_post(p, tid, mutex_id), other, mutex_id) == mutex_lock_post(
            p,
            tid,
            mutex_id,
        ),
{
    let q = mutex_lock_post(p, tid, mutex_id);
    assert(q.mutex_allocation.len() > mutex_id);
    assert(pad_zeros(q.mutex_allocation, mutex_id + 1) =~= q.mutex_allocation);
    assert(mutex_lock_padded(q, mutex_id) =~= q);
}

/// Releasing a mutex undoes what granting it recorded: lock then unlock
/// leaves the tables as the lock request found them, with an entry for the
/// mutex that marks it free.
pub proof fn lemma_unlock_undoes_lock(p: ProcessModel, tid: int, mutex_id: int)
    requires
        0 <= mutex_id < p.mutex_list.len(),
        0 <= tid < usize::MAX,
        !mutex_lock_refused(p, mutex_id),
    ensures
        mutex_unlock_post(mutex_lock_post(p, tid, mutex_id), mutex_id) == if p.deadlock_detect_enabled {
            mutex_lock_padded(p, mutex_id)
        } else {
            p
        },
{
    if p.deadlock_detect_enabled {
        let q = mutex_lock_post(p, tid, mutex_id);
        let padded = pad_zeros(p.mutex_allocation, mutex_id + 1);
        assert(padded.len() > mutex_id);
        assert(padded[mutex_id] == 0);
        assert(q.mutex_allocation.update(mutex_id, 0) =~= padded);
        assert(mutex_unlock_post(q, mutex_id) =~= mutex_lock_padded(p, mutex_id));
    }
}

/// After a mutex has been released, a request for it is granted.
pub proof fn lemma_released_mutex_is_granted(p: ProcessModel, mutex_id: int)
    requires
        0 <= mutex_id < p.mutex_list.len(),
        mutex_id < p.mutex_allocation.len(),
    ensures
        !mutex_lock_refused(mutex_unlock_post(p, mutex_id), mutex_id),
{
    let q = mutex_unlock_post(p, mutex_id);
    if q.deadlock_detect_enabled {
        assert(pad_zeros(q.mutex_allocation, mutex_id + 1) =~= q.mutex_allocation);
    }
}

/// A request for a semaphore that still has a free resource is never
/// refused.
pub proof fn lemma_available_semaphore_is_granted(p: ProcessModel, tid: int, sem_id: int)
    requires
        0 <= sem_id < p.semaphore_list.len(),
        p.semaphore_list[sem_id] is Some,
        p.semaphore_list[sem_id].unwrap().count > 0,
    ensures
        !semaphore_down_refused(p, tid, sem_id),
{
}

/// Releasing one resource of a semaphore undoes what granting it recorded:
/// down then up by the same thread leaves the allocation table as the down
/// request found it, once that has a row for the thread long enough for the
/// semaphore.
pub proof fn lemma_up_undoes_down(p: ProcessModel, tid: int, sem_id: int)
    requires
        p.deadlock_detect_enabled,
        0 <= tid,
        0 <= sem_id < p.semaphore_list.len(),
        !semaphore_down_refused(p, tid, sem_id),
        request_row(
            semaphore_down_padded(p, tid).semaphore_allocation,
            tid,
            sem_id,
            p.semaphore_list.len() as int,
        )[sem_id] < usize::MAX,
    ensures
        semaphore_up_post(semaphore_down_post(p, tid, sem_id), tid, sem_id) == with_semaphore_allocation(
            p,
            semaphore_down_padded(p, tid).semaphore_allocation.update(
                tid,
                request_row(
                    semaphore_down_padded(p, tid).semaphore_allocation,
                    tid,
                    sem_id,
                    p.semaphore_list.len() as int,
                ),
            ),
        ),
{
    let w = p.semaphore_list.len() as int;
    let a = semaphore_down_padded(p, tid).semaphore_allocation;
    assert(a.len() > tid);
    let row = request_row(a, tid, sem_id, w);
    assert(row.len() > sem_id);
    let q = semaphore_down_post(p, tid, sem_id);
    let b = q.semaphore_allocation;
    assert(b[tid] == row.update(sem_id, (row[sem_id] + 1) as usize));
    assert(b[tid].update(sem_id, (b[tid][sem_id] - 1) as usize) =~= row);
    assert(b.update(tid, row) =~= a.update(tid, row));
}

/// Switching deadlock detection on (or off) twice has the same effect as
/// switching it once, and an invalid switch value changes nothing.
pub proof fn lemma_enable_idempotent(p: ProcessModel, enabled: int)
    ensures
        enable_post(enable_post(p, enabled), enabled) == enable_post(p, enabled),
        enabled != 0 && enabled != 1 ==> enable_post(p, enabled) == p,
{
    let q = enable_post(p, enabled);
    if enabled == 1 {
        if p.mutex_allocation.len() == 0 && p.mutex_list.len() == 0 {
            assert(q.mutex_allocation =~= Seq::new(q.mutex_list.len(), |x: int| 0usize));
        }
        if p.semaphore_allocation.len() == 0 && p.task_count <= 0 {
            assert(q.semaphore_allocation =~= Seq::new(
                q.task_count as nat,
                |t: int| Seq::new(q.semaphore_list.len(), |x: int| 0usize),
            ));
        }
    }
    assert(enable_post(q, enabled) =~= q);
}

/// A new object takes a free slot whenever there is one, so the table grows
/// only when every slot is taken; the object is found at the index returned.
pub proof fn lemma_place_reuses_free_slot<T>(s: Seq<Option<T>>, v: T, k: int)
    requires
        0 <= k < s.len(),
        s[k] is None,
    ensures
        place(s, v).len() == s.len(),
        slot_for(s) <= k,
        place(s, v)[slot_for(s)] == Some(v),
        forall|x: int| 0 <= x < s.len() && x != slot_for(s) ==> place(s, v)[x] == s[x],
{
    if !(exists|f: int| is_first_free(s, f)) {
        lemma_some_first_free(s, k);
    }
    let f = slot_for(s);
    assert(is_first_free(s, f));
    if k < f {
        assert(s[k] is Some);
    }
}

proof fn lemma_some_first_free<T>(s: Seq<Option<T>>, k: int)
    requires
        0 <= k < s.len(),
        s[k] is None,
    ensures
        exists|f: int| is_first_free(s, f),
    decreases k,
{
    if forall|x: int| 0 <= x < k ==> #[trigger] s[x] is Some {
        assert(is_first_free(s, k));
    } else {
        let x = choose|x: int| 0 <= x < k && !(#[trigger] s[x] is Some);
        lemma_some_first_free(s, x);
    }
}


proof fn lemma_released_nonneg(alloc: Seq<Seq<usize>>, done: Seq<bool>, j: int, k: int)
    ensures
        released(alloc, done, j, k) >= 0,
    decreases k,
{
    if k > 0 {
        lemma_released_nonneg(alloc, done, j, k - 1);
    }
}

proof fn lemma_released_zero_entries(alloc: Seq<Seq<usize>>, done: Seq<bool>, j: int, k: int)
    requires
        forall|x: int| 0 <= x < k && #[trigger] done[x] ==> entry(alloc, x, j) == 0,
    ensures
        released(alloc, done, j, k) == 0,
    decreases k,
{
    if k > 0 {
        lemma_released_zero_entries(alloc, done, j, k - 1);
    }
}

proof fn lemma_released_at_least(alloc: Seq<Seq<usize>>, done: Seq<bool>, j: int, k: int, h: int)
    requires
        0 <= h < k,
        done[h],
    ensures
        released(alloc, done, j, k) >= entry(alloc, h, j),
    decreases k,
{
    if h < k - 1 {
        lemma_released_at_least(alloc, done, j, k - 1, h);
    } else {
        lemma_released_nonneg(alloc, done, j, k - 1);
    }
}

/// The threads other than `tid`, in increasing order.
spec fn others(n: int, tid: int) -> Seq<int> {
    Seq::new((n - 1) as nat, |k: int| if k < tid { k } else { k + 1 })
}

/// A request of thread `tid` for one resource of a semaphore deadlocks exactly
/// when the semaphore exists, has no free resource (its counter is at most
/// zero) and no other thread holds a resource of it: every other thread needs
/// nothing, so all of them can finish, and the requester can then finish
/// unless nothing of the semaphore comes free.
pub proof fn lemma_semaphore_request_deadlock_iff_unheld(p: ProcessModel, sem_id: int, tid: int)
    requires
        0 <= tid < p.task_count,
        0 <= sem_id < p.semaphore_list.len() ==> p.semaphore_list[sem_id] is Some,
    ensures
        semaphore_request_deadlocks(p, sem_id, tid) <==> {
            &&& detection_runs(p, sem_id)
            &&& forall|i: int|
                0 <= i < p.task_count && i != tid ==> #[trigger] entry(
                    p.semaphore_allocation,
                    i,
                    sem_id,
                ) == 0
        },
{
    let n = p.task_count;
    let m = p.semaphore_list.len() as int;
    let avail = semaphore_work(p);
    let alloc = p.semaphore_allocation;
    let need = request_need(n, m, tid, sem_id);
    if detection_runs(p, sem_id) {
        let unheld = forall|i: int|
            0 <= i < n && i != tid ==> #[trigger] entry(alloc, i, sem_id) == 0;
        if unheld {
            assert(avail[sem_id] == 0);
            assert forall|s: Seq<int>| !is_complete_safe_sequence(avail, alloc, need, n, m, s) by {
                if is_complete_safe_sequence(avail, alloc, need, n, m, s) {
                    assert(s.contains(tid));
                    let k = choose|k: int| 0 <= k < s.len() && s[k] == tid;
                    let pre = members(s.take(k), n);
                    assert forall|x: int| 0 <= x < n && #[trigger] pre[x] implies entry(
                        alloc,
                        x,
                        sem_id,
                    ) == 0 by {
                        let idx = choose|idx: int|
                            0 <= idx < s.take(k).len() && #[trigger] s.take(k)[idx] == x;
                        assert(s[idx] == x);
                        assert(x != tid);
                    }
                    lemma_released_zero_entries(alloc, pre, sem_id, n);
                    assert(can_finish(avail, alloc, need, n, m, pre, s[k]));
                    assert(need[tid][sem_id] <= work_after(avail, alloc, pre, n, sem_id));
                }
            }
        } else {
            let o = others(n, tid);
            let s = o.push(tid);
            assert forall|a: int, b: int| 0 <= a < b < o.len() implies o[a] < o[b] by {}
            assert(s.no_duplicates()) by {
                assert forall|a: int, b: int| 0 <= a < s.len() && 0 <= b < s.len() && a != b implies s[a]
                    != s[b] by {
                    if a < o.len() && b < o.len() {
                        if a < b {
                            assert(o[a] < o[b]);
                        } else {
                            assert(o[b] < o[a]);
                        }
                    }
                }
            }
            assert forall|i: int| 0 <= i < n implies s.contains(i) by {
                if i < tid {
                    assert(s[i] == i);
                } else if i > tid {
                    assert(s[i - 1] == i);
                } else {
                    assert(s[o.len() as int] == i);
                }
            }
            assert(members(o, n) =~= Seq::new(n as nat, |i: int| i != tid)) by {
                assert forall|i: int| 0 <= i < n implies #[trigger] o.contains(i) == (i != tid) by {
                    if i < tid {
                        assert(o[i] == i);
                    } else if i > tid {
                        assert(o[i - 1] == i);
                    } else if o.contains(i) {
                        let idx = choose|idx: int| 0 <= idx < o.len() && #[trigger] o[idx] == i;
                    }
                }
            }
            assert forall|k: int| 0 <= k < s.len() implies can_finish(
                avail,
                alloc,
                need,
                n,
                m,
                members(s.take(k), n),
                #[trigger] s[k],
            ) by {
                let pre = members(s.take(k), n);
                assert forall|j: int| 0 <= j < m implies need[s[k]][j] <= #[trigger] work_after(
                    avail,
                    alloc,
                    pre,
                    n,
                    j,
                ) by {
                    lemma_released_nonneg(alloc, pre, j, n);
                    assert(0 <= s[k] < n);
                    assert(avail[j] >= 0);
                    if k < o.len() {
                        assert(s[k] != tid);
                        assert(need[s[k]][j] == 0);
                    } else if j != sem_id {
                        assert(need[s[k]][j] == 0);
                    } else {
                        assert(need[s[k]][j] == 1);
                        assert(s.take(k) =~= o);
                        let h = choose|h: int|
                            0 <= h < n && h != tid && !(#[trigger] entry(alloc, h, sem_id) == 0);
                        assert(pre[h]);
                        lemma_released_at_least(alloc, pre, sem_id, n, h);
                    }
                }
            }
            assert(is_complete_safe_sequence(avail, alloc, need, n, m, s));
        }
    }
}


/// With deadlock detection on, lock then unlock by a thread leaves the mutex
/// allocation as the lock request found it, padded with zeros up to the
/// mutex's entry, and everything else unchanged.
pub proof fn lemma_lock_unlock_round_trip(p: ProcessModel, tid: int, mutex_id: int)
    requires
        p.deadlock_detect_enabled,
        0 <= mutex_id < p.mutex_list.len(),
        0 <= tid < usize::MAX,
        !mutex_lock_refused(p, mutex_id),
    ensures
        mutex_unlock_post(mutex_lock_post(p, tid, mutex_id), mutex_id) == with_mutex_allocation(
            p,
            pad_zeros(p.mutex_allocation, mutex_id + 1),
        ),
        mutex_unlock_post(mutex_lock_post(p, tid, mutex_id), mutex_id).mutex_allocation == pad_zeros(
            p.mutex_allocation,
            mutex_id + 1,
        ),
{
    lemma_unlock_undoes_lock(p, tid, mutex_id);
}

/// With deadlock detection on, a granted down then an up by the same thread
/// leave the tables exactly as they were, when the thread's row of the
/// semaphore allocation already has an entry for the semaphore.
pub proof fn lemma_down_up_round_trip(p: ProcessModel, tid: int, sem_id: int)
    requires
        p.deadlock_detect_enabled,
        0 <= sem_id < p.semaphore_list.len(),
        0 <= tid < p.semaphore_allocation.len(),
        sem_id < p.semaphore_allocation[tid].len(),
        p.semaphore_allocation[tid][sem_id] < usize::MAX,
        !semaphore_down_refused(p, tid, sem_id),
    ensures
        semaphore_up_post(semaphore_down_post(p, tid, sem_id), tid, sem_id) == p,
{
    let a = p.semaphore_allocation;
    let w = p.semaphore_list.len() as int;
    assert(pad_rows(a, tid + 1, w) == a);
    assert(semaphore_down_padded(p, tid).semaphore_allocation == a);
    assert(request_row(a, tid, sem_id, w) == a[tid]);
    lemma_up_undoes_down(p, tid, sem_id);
    assert(a.update(tid, a[tid]) =~= a);
    assert(with_semaphore_allocation(p, a) =~= p);
}

proof fn lemma_released_monotone_in_alloc(
    a1: Seq<Seq<usize>>,
    a2: Seq<Seq<usize>>,
    done: Seq<bool>,
    j: int,
    k: int,
)
    requires
        forall|i: int| 0 <= i < k ==> entry(a1, i, j) <= #[trigger] entry(a2, i, j),
    ensures
        released(a1, done, j, k) <= released(a2, done, j, k),
    decreases k,
{
    if k > 0 {
        lemma_released_monotone_in_alloc(a1, a2, done, j, k - 1);
    }
}

/// More free resources, or more resources held by the threads (which they
/// release when they finish), never turn a safe state into an unsafe one:
/// every order in which the threads can all finish stays such an order.
pub proof fn lemma_safety_monotone(
    avail1: Seq<usize>,
    avail2: Seq<usize>,
    alloc1: Seq<Seq<usize>>,
    alloc2: Seq<Seq<usize>>,
    need: Seq<Seq<usize>>,
    n: int,
    m: int,
)
    requires
        forall|j: int| 0 <= j < m ==> avail1[j] <= #[trigger] avail2[j],
        forall|i: int, j: int|
            0 <= i < n && 0 <= j < m ==> entry(alloc1, i, j) <= #[trigger] entry(alloc2, i, j),
        is_safe_state(avail1, alloc1, need, n, m),
    ensures
        is_safe_state(avail2, alloc2, need, n, m),
{
    let s = choose|s: Seq<int>| is_complete_safe_sequence(avail1, alloc1, need, n, m, s);
    assert forall|k: int| 0 <= k < s.len() implies can_finish(
        avail2,
        alloc2,
        need,
        n,
        m,
        members(s.take(k), n),
        #[trigger] s[k],
    ) by {
        let pre = members(s.take(k), n);
        assert(can_finish(avail1, alloc1, need, n, m, pre, s[k]));
        assert forall|j: int| 0 <= j < m implies need[s[k]][j] <= #[trigger] work_after(
            avail2,
            alloc2,
            pre,
            n,
            j,
        ) by {
            lemma_released_monotone_in_alloc(alloc1, alloc2, pre, j, n);
            assert(need[s[k]][j] <= work_after(avail1, alloc1, pre, n, j));
        }
    }
    assert(is_complete_safe_sequence(avail2, alloc2, need, n, m, s));
}

/// More free semaphore resources, or more resources held by the threads,
/// never turn a granted semaphore request into a refused one.
pub proof fn lemma_semaphore_detection_monotone(
    p1: ProcessModel,
    p2: ProcessModel,
    sem_id: int,
    tid: int,
)
    requires
        p1.task_count == p2.task_count,
        p1.semaphore_list.len() == p2.semaphore_list.len(),
        0 <= sem_id < p1.semaphore_list.len() ==> p1.semaphore_list[sem_id] is Some
            && p2.semaphore_list[sem_id] is Some,
        forall|j: int|
            0 <= j < p1.semaphore_list.len() ==> semaphore_work(p1)[j] <= #[trigger] semaphore_work(
                p2,
            )[j],
        forall|i: int, j: int|
            0 <= i < p1.task_count && 0 <= j < p1.semaphore_list.len() ==> entry(
                p1.semaphore_allocation,
                i,
                j,
            ) <= #[trigger] entry(p2.semaphore_allocation, i, j),
        !semaphore_request_deadlocks(p1, sem_id, tid),
    ensures
        !semaphore_request_deadlocks(p2, sem_id, tid),
{
    let n = p1.task_count;
    let m = p1.semaphore_list.len() as int;
    if detection_runs(p1, sem_id) {
        lemma_safety_monotone(
            semaphore_work(p1),
            semaphore_work(p2),
            p1.semaphore_allocation,
            p2.semaphore_allocation,
            request_need(n, m, tid, sem_id),
            n,
            m,
        );
    } else if 0 <= sem_id < m {
        assert(semaphore_work(p1)[sem_id] <= semaphore_work(p2)[sem_id]);
    }
}


/// A lock request either is refused with `DEADLOCK_REFUSED` and no operation,
/// or returns `0` and has the kernel lock exactly the requested mutex. With
/// detection off it is never refused and changes no table.
pub proof fn lemma_lock_targets_requested_mutex(p: ProcessModel, tid: int, mutex_id: int)
    requires
        0 <= mutex_id <= usize::MAX,
    ensures
        mutex_lock_refused(p, mutex_id) ==> mutex_lock_outcome(p, mutex_id) == (Outcome {
            ret: DEADLOCK_REFUSED,
            action: Action::Nothing,
        }),
        !mutex_lock_refused(p, mutex_id) ==> mutex_lock_outcome(p, mutex_id) == (Outcome {
            ret: 0,
            action: Action::LockMutex { mutex_id: mutex_id as usize },
        }),
        !p.deadlock_detect_enabled ==> !mutex_lock_refused(p, mutex_id) && mutex_lock_post(
            p,
            tid,
            mutex_id,
        ) == p,
{
}

/// A granted lock request with detection on records the caller (as
/// `tid + 1`) at the requested mutex and nowhere else: the allocation grows
/// with zeros up to the mutex's entry, every other entry keeps its value, and
/// no other table changes.
pub proof fn lemma_lock_records_only_requested_mutex(p: ProcessModel, tid: int, mutex_id: int)
    requires
        p.deadlock_detect_enabled,
        0 <= mutex_id,
        0 <= tid < usize::MAX,
        !mutex_lock_refused(p, mutex_id),
    ensures
        ({
            let q = mutex_lock_post(p, tid, mutex_id);
            let a = p.mutex_allocation;
            &&& q == (ProcessModel { mutex_allocation: q.mutex_allocation, ..p })
            &&& q.mutex_allocation.len() == if a.len() > mutex_id {
                a.len() as int
            } else {
                mutex_id + 1
            }
            &&& q.mutex_allocation[mutex_id] == tid + 1
            &&& forall|x: int|
                0 <= x < a.len() && x != mutex_id ==> #[trigger] q.mutex_allocation[x] == a[x]
            &&& forall|x: int|
                a.len() <= x < q.mutex_allocation.len() && x != mutex_id
                    ==> #[trigger] q.mutex_allocation[x] == 0
        }),
{
}

/// A semaphore request either is refused with `DEADLOCK_REFUSED` and no
/// operation, or returns `0` and has the kernel lower exactly the requested
/// semaphore. With detection off it is never refused and changes no table.
pub proof fn lemma_down_targets_requested_semaphore(p: ProcessModel, tid: int, sem_id: int)
    requires
        0 <= sem_id <= usize::MAX,
    ensures
        semaphore_down_refused(p, tid, sem_id) ==> semaphore_down_outcome(p, tid, sem_id) == (
        Outcome { ret: DEADLOCK_REFUSED, action: Action::Nothing }),
        !semaphore_down_refused(p, tid, sem_id) ==> semaphore_down_outcome(p, tid, sem_id) == (
        Outcome { ret: 0, action: Action::SemaphoreDown { sem_id: sem_id as usize } }),
        !p.deadlock_detect_enabled ==> !semaphore_down_refused(p, tid, sem_id) && semaphore_down_post(
            p,
            tid,
            sem_id,
        ) == p,
{
}

/// A semaphore request with detection on changes only the semaphore
/// allocation, and of it only the caller's row: rows of other threads keep
/// their values, new rows (added up to the caller's) are zeros, and a granted
/// request adds exactly one to the caller's entry for the semaphore, leaving
/// the caller's other entries as they were.
pub proof fn lemma_down_records_only_caller(p: ProcessModel, tid: int, sem_id: int)
    requires
        p.deadlock_detect_enabled,
        0 <= tid,
        0 <= sem_id < p.semaphore_list.len(),
        !semaphore_down_refused(p, tid, sem_id) ==> entry(p.semaphore_allocation, tid, sem_id)
            < usize::MAX,
    ensures
        ({
            let q = semaphore_down_post(p, tid, sem_id);
            let a = p.semaphore_allocation;
            let b = q.semaphore_allocation;
            let w = p.semaphore_list.len() as int;
            &&& q == (ProcessModel { semaphore_allocation: b, ..p })
            &&& b.len() == if a.len() > tid {
                a.len() as int
            } else {
                tid + 1
            }
            &&& forall|x: int| 0 <= x < a.len() && x != tid ==> #[trigger] b[x] == a[x]
            &&& forall|x: int|
                a.len() <= x < b.len() && x != tid ==> #[trigger] b[x] == Seq::new(
                    w as nat,
                    |y: int| 0usize,
                )
            &&& semaphore_down_refused(p, tid, sem_id) ==> b[tid] == if tid < a.len() {
                a[tid]
            } else {
                Seq::new(w as nat, |y: int| 0usize)
            }
            &&& !semaphore_down_refused(p, tid, sem_id) ==> {
                &&& b[tid][sem_id] == entry(a, tid, sem_id) + 1
                &&& forall|j: int|
                    0 <= j < b[tid].len() && j != sem_id ==> #[trigger] b[tid][j] == entry(a, tid, j)
            }
        }),
{
    let a = p.semaphore_allocation;
    let w = p.semaphore_list.len() as int;
    let padded = pad_rows(a, tid + 1, w);
    let q = semaphore_down_post(p, tid, sem_id);
    let b = q.semaphore_allocation;
    assert(padded.len() > tid);
    assert forall|x: int| 0 <= x < a.len() implies #[trigger] padded[x] == a[x] by {}
    assert forall|x: int| a.len() <= x < padded.len() implies #[trigger] padded[x] == Seq::new(
        w as nat,
        |y: int| 0usize,
    ) by {}
    if !semaphore_down_refused(p, tid, sem_id) {
        let row = request_row(padded, tid, sem_id, w);
        assert(row.len() > sem_id);
        assert(b == padded.update(tid, row.update(sem_id, (row[sem_id] + 1) as usize)));
        assert forall|j: int| 0 <= j < row.len() implies #[trigger] row[j] == entry(a, tid, j) by {
            if tid < a.len() {
                assert(padded[tid] == a[tid]);
            }
        }
        assert(b[tid][sem_id] == entry(a, tid, sem_id) + 1);
        assert forall|x: int| 0 <= x < a.len() && x != tid implies #[trigger] b[x] == a[x] by {}
    } else {
        assert(b == padded);
    }
}

/// An up by a thread changes only that thread's own row of the semaphore
/// allocation, and there only the entry for the semaphore, which drops by
/// one; an up by a thread that holds none of the semaphore (or with detection
/// off) changes nothing.
pub proof fn lemma_up_changes_only_caller_entry(p: ProcessModel, tid: int, sem_id: int)
    ensures
        ({
            let q = semaphore_up_post(p, tid, sem_id);
            let a = p.semaphore_allocation;
            let b = q.semaphore_allocation;
            let holds = 0 <= tid < a.len() && 0 <= sem_id < a[tid].len() && a[tid][sem_id] > 0;
            &&& q == (ProcessModel { semaphore_allocation: b, ..p })
            &&& b.len() == a.len()
            &&& forall|x: int| 0 <= x < a.len() && x != tid ==> #[trigger] b[x] == a[x]
            &&& !(p.deadlock_detect_enabled && holds) ==> q == p
            &&& p.deadlock_detect_enabled && holds ==> {
                &&& b[tid].len() == a[tid].len()
                &&& b[tid][sem_id] == a[tid][sem_id] - 1
                &&& forall|j: int|
                    0 <= j < a[tid].len() && j != sem_id ==> #[trigger] b[tid][j] == a[tid][j]
            }
        }),
{
}

/// Switching deadlock detection changes only the flag and fills allocation
/// tables that are empty: an allocation table that is not empty is the same
/// after the call, the object tables never change, an empty table filled on
/// switching on holds a zero per mutex (or a row of zeros per task), and an
/// invalid switch value changes nothing.
pub proof fn lemma_enable_keeps_recorded_allocations(p: ProcessModel, enabled: int)
    ensures
        ({
            let q = enable_post(p, enabled);
            &&& q.task_count == p.task_count
            &&& q.mutex_list == p.mutex_list
            &&& q.semaphore_list == p.semaphore_list
            &&& q.condvar_list == p.condvar_list
            &&& p.mutex_allocation.len() > 0 ==> q.mutex_allocation == p.mutex_allocation
            &&& p.semaphore_allocation.len() > 0 ==> q.semaphore_allocation == p.semaphore_allocation
            &&& enabled != 1 ==> q.mutex_allocation == p.mutex_allocation
                && q.semaphore_allocation == p.semaphore_allocation
            &&& (enabled == 0 || enabled == 1) ==> q.deadlock_detect_enabled == (enabled == 1)
            &&& enabled != 0 && enabled != 1 ==> q == p
            &&& enabled == 1 && p.mutex_allocation.len() == 0 ==> {
                &&& q.mutex_allocation.len() == p.mutex_list.len()
                &&& forall|x: int| 0 <= x < q.mutex_allocation.len() ==> #[trigger] q.mutex_allocation[x] == 0
            }
            &&& enabled == 1 && p.semaphore_allocation.len() == 0 && p.task_count >= 0 ==> {
                &&& q.semaphore_allocation.len() == p.task_count
                &&& forall|t: int|
                    0 <= t < p.task_count ==> #[trigger] q.semaphore_allocation[t] == Seq::new(
                        p.semaphore_list.len(),
                        |x: int| 0usize,
                    )
            }
        }),
{
}

/// Placing a new object never changes another slot: it takes the lowest free
/// slot (every slot before it is taken) and leaves the table's length alone,
/// or, when no slot is free, it is appended at the end.
pub proof fn lemma_place_keeps_other_slots<T>(s: Seq<Option<T>>, v: T)
    ensures
        0 <= slot_for(s) <= s.len(),
        place(s, v)[slot_for(s)] == Some(v),
        forall|x: int| 0 <= x < slot_for(s) ==> #[trigger] s[x] is Some,
        forall|x: int| 0 <= x < s.len() && x != slot_for(s) ==> #[trigger] place(s, v)[x] == s[x],
        slot_for(s) < s.len() ==> s[slot_for(s)] is None && place(s, v).len() == s.len(),
        slot_for(s) == s.len() ==> place(s, v) == s.push(Some(v)),
{
    if exists|k: int| is_first_free(s, k) {
        assert(is_first_free(s, slot_for(s)));
    } else {
        assert forall|x: int| 0 <= x < s.len() implies #[trigger] s[x] is Some by {
            if !(s[x] is Some) {
                lemma_some_first_free(s, x);
            }
        }
    }
}


/// Releasing a mutex changes only that mutex's entry of the mutex allocation,
/// which becomes `0` when detection is on and the entry exists; with
/// detection off nothing changes.
pub proof fn lemma_unlock_clears_only_requested_mutex(p: ProcessModel, mutex_id: int)
    requires
        0 <= mutex_id,
    ensures
        ({
            let q = mutex_unlock_post(p, mutex_id);
            let a = p.mutex_allocation;
            &&& q == (ProcessModel { mutex_allocation: q.mutex_allocation, ..p })
            &&& q.mutex_allocation.len() == a.len()
            &&& forall|x: int|
                0 <= x < a.len() && x != mutex_id ==> #[trigger] q.mutex_allocation[x] == a[x]
            &&& p.deadlock_detect_enabled && 0 <= mutex_id < a.len() ==> q.mutex_allocation[mutex_id] == 0
            &&& !p.deadlock_detect_enabled ==> q == p
        }),
{
}

} // verus!
