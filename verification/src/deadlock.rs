//! Deadlock detection for a thread that asks for one resource of a semaphore.
use vstd::prelude::*;
use crate::banker::{
    banker_detects_deadlock,
    covers,
    is_safe_state,
    matrix_view,
    rows_defined,
    totals_fit,
};
use crate::process::{ProcessControlBlockInner, ProcessModel};

verus! {

/// The free resources of each semaphore as the safety check sees them: the
/// counter of an occupied slot when it is positive, and `0` otherwise (a
/// counter of zero or below means that no resource is free; below zero,
/// threads wait on the semaphore).
pub open spec fn semaphore_work(p: ProcessModel) -> Seq<usize> {
    Seq::new(
        p.semaphore_list.len(),
        |j: int|
            match p.semaphore_list[j] {
                Some(s) => if s.count > 0 {
                    s.count as usize
                } else {
                    0usize
                },
                None => 0usize,
            },
    )
}

/// The need of a request of thread `tid` for one resource of semaphore
/// `sem_id`: `1` at that place and `0` everywhere else.
pub open spec fn request_need(n: int, m: int, tid: int, sem_id: int) -> Seq<Seq<usize>> {
    Seq::new(
        n as nat,
        |i: int| Seq::new(m as nat, |j: int| if i == tid && j == sem_id { 1usize } else { 0usize }),
    )
}

/// The safety check runs: the semaphore exists and has no resource left.
pub open spec fn detection_runs(p: ProcessModel, sem_id: int) -> bool {
    &&& 0 <= sem_id < p.semaphore_list.len()
    &&& p.semaphore_list[sem_id].unwrap().count <= 0
}

/// The request of thread `tid` for semaphore `sem_id` would leave the process
/// in a state from which its threads cannot all finish.
pub open spec fn semaphore_request_deadlocks(p: ProcessModel, sem_id: int, tid: int) -> bool {
    &&& detection_runs(p, sem_id)
    &&& !is_safe_state(
        semaphore_work(p),
        p.semaphore_allocation,
        request_need(p.task_count, p.semaphore_list.len() as int, tid, sem_id),
        p.task_count,
        p.semaphore_list.len() as int,
    )
}

/// What a run of the detection asks of the tables: a slot for the semaphore
/// and, when the safety check runs, a task-table entry for `tid`, a row of
/// allocations for every thread that can finish, and totals of what those
/// threads hold that fit in `usize`.
pub open spec fn detection_defined(p: ProcessModel, sem_id: int, tid: int) -> bool {
    let n = p.task_count;
    let m = p.semaphore_list.len() as int;
    let need = request_need(n, m, tid, sem_id);
    &&& 0 <= sem_id < p.semaphore_list.len() ==> p.semaphore_list[sem_id] is Some
    &&& detection_runs(p, sem_id) ==> {
        &&& 0 <= tid < n
        &&& rows_defined(semaphore_work(p), p.semaphore_allocation, need, n, m)
        &&& totals_fit(semaphore_work(p), p.semaphore_allocation, need, n, m)
    }
}

/// Whether granting thread `tid` one resource of semaphore `sem_id` could
/// deadlock the process, by the safety check of the Banker's algorithm.
///
/// A request for a semaphore that does not exist, or that still has a free
/// resource, never deadlocks. Otherwise the request deadlocks when the
/// threads cannot all finish, in any order, with the resources that are free
/// (the positive semaphore counters) plus what finished threads release, given that
/// `tid` needs one resource of `sem_id` and no other thread needs anything.
pub fn semaphore_deadlock_detect(
    process_inner: &mut ProcessControlBlockInner,
    sem_id: usize,
    tid: usize,
) -> (deadlock: bool)
    requires
        detection_defined(old(process_inner)@, sem_id as int, tid as int),
    ensures
        *final(process_inner) == *old(process_inner),
        deadlock == semaphore_request_deadlocks(old(process_inner)@, sem_id as int, tid as int),
{
    let thread_count = process_inner.task_count;
    let semaphore_count = process_inner.semaphore_list.len();
    if sem_id >= semaphore_count {
        return false;
    }
    let available = process_inner.semaphore_list[sem_id].unwrap().count;
    if available > 0 {
        return false;
    }
    let ghost p = process_inner@;
    let mut work: Vec<usize> = Vec::new();
    for i in 0..semaphore_count
        invariant
            semaphore_count == process_inner.semaphore_list.len(),
            p == process_inner@,
            work@ == semaphore_work(p).take(i as int),
    {
        let w: usize = match process_inner.semaphore_list[i] {
            Some(sem) => if sem.count > 0 {
                sem.count as usize
            } else {
                0
            },
            None => 0,
        };
        work.push(w);
        assert(work@ =~= semaphore_work(p).take(i + 1));
    }
    assert(work@ =~= semaphore_work(p));
    let mut need: Vec<Vec<usize>> = Vec::new();
    for i in 0..thread_count
        invariant
            semaphore_count == process_inner.semaphore_list.len(),
            need.len() == i,
            matrix_view(&need) == request_need(
                thread_count as int,
                semaphore_count as int,
                tid as int,
                sem_id as int,
            ).take(i as int),
    {
        let mut row: Vec<usize> = Vec::new();
        for j in 0..semaphore_count
            invariant
                0 <= i < thread_count,
                row@ == request_need(
                    thread_count as int,
                    semaphore_count as int,
                    tid as int,
                    sem_id as int,
                )[i as int].take(j as int),
        {
            if i == tid && j == sem_id {
                row.push(1);
            } else {
                row.push(0);
            }
            assert(row@ =~= request_need(
                thread_count as int,
                semaphore_count as int,
                tid as int,
                sem_id as int,
            )[i as int].take(j + 1));
        }
        assert(row@ =~= request_need(
            thread_count as int,
            semaphore_count as int,
            tid as int,
            sem_id as int,
        )[i as int]);
        let ghost prev = need@;
        need.push(row);
        assert(matrix_view(&need) =~= request_need(
            thread_count as int,
            semaphore_count as int,
            tid as int,
            sem_id as int,
        ).take(i + 1)) by {
            assert(need@ == prev.push(row));
            assert(matrix_view(&need)[i as int] == row@);
        }
    }
    assert(matrix_view(&need) =~= request_need(
        thread_count as int,
        semaphore_count as int,
        tid as int,
        sem_id as int,
    ));
    assert(matrix_view(&process_inner.semaphore_allocation) == p.semaphore_allocation);
    assert(covers(matrix_view(&need), thread_count as int, semaphore_count as int));
    banker_detects_deadlock(&work, &process_inner.semaphore_allocation, &need, thread_count)
}

} // verus!
