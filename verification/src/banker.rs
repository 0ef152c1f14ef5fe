//! The safety check of the Banker's algorithm.
//!
//! A state is given by the resources that are available (`avail`, one entry
//! per resource kind), the resources each thread holds (`alloc`, one row per
//! thread) and the resources each thread still needs (`need`). A thread can
//! finish once its whole need fits into the available resources; when it
//! finishes it releases what it holds. The state is safe when the threads can
//! finish one after the other in some order.
use vstd::prelude::*;

verus! {

/// The rows of a matrix of counters, each row taken by its view.
pub open spec fn matrix_view(v: &Vec<Vec<usize>>) -> Seq<Seq<usize>> {
    v@.map_values(|r: Vec<usize>| r@)
}

/// Entry `(i, j)` of the matrix, `0` where the matrix has none.
pub open spec fn entry(mx: Seq<Seq<usize>>, i: int, j: int) -> int {
    if 0 <= i < mx.len() && 0 <= j < mx[i].len() {
        mx[i][j] as int
    } else {
        0
    }
}

/// What the threads `i < k` marked in `done` hold of resource `j`, summed.
pub open spec fn released(alloc: Seq<Seq<usize>>, done: Seq<bool>, j: int, k: int) -> int
    decreases k,
{
    if k <= 0 {
        0
    } else {
        released(alloc, done, j, k - 1) + if done[k - 1] {
            entry(alloc, k - 1, j)
        } else {
            0
        }
    }
}

/// The amount of resource `j` that is free once the threads marked in `done`
/// have finished and released what they hold.
pub open spec fn work_after(
    avail: Seq<usize>,
    alloc: Seq<Seq<usize>>,
    done: Seq<bool>,
    n: int,
    j: int,
) -> int {
    avail[j] + released(alloc, done, j, n)
}

/// Thread `i` can finish once the threads marked in `done` have finished.
pub open spec fn can_finish(
    avail: Seq<usize>,
    alloc: Seq<Seq<usize>>,
    need: Seq<Seq<usize>>,
    n: int,
    m: int,
    done: Seq<bool>,
    i: int,
) -> bool {
    forall|j: int| 0 <= j < m ==> need[i][j] <= #[trigger] work_after(avail, alloc, done, n, j)
}

/// The threads that occur in `s`, as one flag per thread.
pub open spec fn members(s: Seq<int>, n: int) -> Seq<bool> {
    Seq::new(n as nat, |i: int| s.contains(i))
}

/// `s` lists distinct threads, each of which can finish once the threads
/// listed before it have finished.
pub open spec fn is_safe_sequence(
    avail: Seq<usize>,
    alloc: Seq<Seq<usize>>,
    need: Seq<Seq<usize>>,
    n: int,
    m: int,
    s: Seq<int>,
) -> bool {
    &&& s.no_duplicates()
    &&& forall|k: int| 0 <= k < s.len() ==> 0 <= #[trigger] s[k] < n
    &&& forall|k: int|
        0 <= k < s.len() ==> can_finish(avail, alloc, need, n, m, members(s.take(k), n), #[trigger] s[k])
}

/// A safe sequence in which every thread occurs.
pub open spec fn is_complete_safe_sequence(
    avail: Seq<usize>,
    alloc: Seq<Seq<usize>>,
    need: Seq<Seq<usize>>,
    n: int,
    m: int,
    s: Seq<int>,
) -> bool {
    &&& is_safe_sequence(avail, alloc, need, n, m, s)
    &&& forall|i: int| 0 <= i < n ==> s.contains(i)
}

/// The state is safe: all threads can finish, in some order.
pub open spec fn is_safe_state(
    avail: Seq<usize>,
    alloc: Seq<Seq<usize>>,
    need: Seq<Seq<usize>>,
    n: int,
    m: int,
) -> bool {
    exists|s: Seq<int>| is_complete_safe_sequence(avail, alloc, need, n, m, s)
}

/// The matrix has a row for each of the `n` threads, of at least `m` entries.
pub open spec fn covers(mx: Seq<Seq<usize>>, n: int, m: int) -> bool {
    &&& n <= mx.len()
    &&& forall|i: int| 0 <= i < n ==> m <= #[trigger] mx[i].len()
}

/// Thread `i` occurs in some safe sequence: it can finish, whatever else
/// happens.
pub open spec fn may_finish(
    avail: Seq<usize>,
    alloc: Seq<Seq<usize>>,
    need: Seq<Seq<usize>>,
    n: int,
    m: int,
    i: int,
) -> bool {
    exists|s: Seq<int>| #[trigger] is_safe_sequence(avail, alloc, need, n, m, s) && s.contains(i)
}

/// The threads that can finish, as one flag per thread.
pub open spec fn finishable(
    avail: Seq<usize>,
    alloc: Seq<Seq<usize>>,
    need: Seq<Seq<usize>>,
    n: int,
    m: int,
) -> Seq<bool> {
    Seq::new(n as nat, |i: int| may_finish(avail, alloc, need, n, m, i))
}

/// Every thread that can finish has a row of at least `m` entries in `alloc`.
pub open spec fn rows_defined(
    avail: Seq<usize>,
    alloc: Seq<Seq<usize>>,
    need: Seq<Seq<usize>>,
    n: int,
    m: int,
) -> bool {
    forall|i: int|
        0 <= i < n && #[trigger] may_finish(avail, alloc, need, n, m, i) ==> i < alloc.len() && m
            <= alloc[i].len()
}

/// Adding up the available resources and everything that the threads that
/// can finish hold stays within `usize`.
pub open spec fn totals_fit(
    avail: Seq<usize>,
    alloc: Seq<Seq<usize>>,
    need: Seq<Seq<usize>>,
    n: int,
    m: int,
) -> bool {
    forall|j: int|
        0 <= j < m ==> #[trigger] work_after(avail, alloc, finishable(avail, alloc, need, n, m), n, j)
            <= usize::MAX
}

/// The number of unmarked threads.
pub open spec fn unfinished(done: Seq<bool>) -> nat
    decreases done.len(),
{
    if done.len() == 0 {
        0
    } else {
        unfinished(done.drop_last()) + if done.last() {
            0nat
        } else {
            1nat
        }
    }
}

proof fn lemma_unfinished_mark(done: Seq<bool>, i: int)
    requires
        0 <= i < done.len(),
        !done[i],
    ensures
        unfinished(done.update(i, true)) + 1 == unfinished(done),
    decreases done.len(),
{
    let d2 = done.update(i, true);
    if i == done.len() - 1 {
        assert(d2.drop_last() =~= done.drop_last());
    } else {
        assert(d2.drop_last() =~= done.drop_last().update(i, true));
        lemma_unfinished_mark(done.drop_last(), i);
    }
}

proof fn lemma_released_mark(alloc: Seq<Seq<usize>>, done: Seq<bool>, i: int, j: int, k: int)
    requires
        0 <= i < done.len(),
        k <= done.len(),
        !done[i],
    ensures
        released(alloc, done.update(i, true), j, k) == released(alloc, done, j, k) + if i < k {
            entry(alloc, i, j)
        } else {
            0
        },
    decreases k,
{
    if k > 0 {
        lemma_released_mark(alloc, done, i, j, k - 1);
    }
}

proof fn lemma_released_monotone(
    alloc: Seq<Seq<usize>>,
    d1: Seq<bool>,
    d2: Seq<bool>,
    j: int,
    k: int,
)
    requires
        k <= d1.len(),
        k <= d2.len(),
        forall|x: int| 0 <= x < k && #[trigger] d1[x] ==> d2[x],
    ensures
        released(alloc, d1, j, k) <= released(alloc, d2, j, k),
    decreases k,
{
    if k > 0 {
        lemma_released_monotone(alloc, d1, d2, j, k - 1);
    }
}

proof fn lemma_released_none(alloc: Seq<Seq<usize>>, done: Seq<bool>, j: int, k: int)
    requires
        k <= done.len(),
        forall|x: int| 0 <= x < k ==> !#[trigger] done[x],
    ensures
        released(alloc, done, j, k) == 0,
    decreases k,
{
    if k > 0 {
        lemma_released_none(alloc, done, j, k - 1);
    }
}

/// Once no unfinished thread can finish, every thread of every safe sequence
/// has finished.
proof fn lemma_stuck_covers_safe_prefix(
    avail: Seq<usize>,
    alloc: Seq<Seq<usize>>,
    need: Seq<Seq<usize>>,
    n: int,
    m: int,
    fin: Seq<bool>,
    s: Seq<int>,
    k: int,
)
    requires
        fin.len() == n,
        is_safe_sequence(avail, alloc, need, n, m, s),
        0 <= k <= s.len(),
        forall|i: int|
            0 <= i < n && !#[trigger] fin[i] ==> !can_finish(avail, alloc, need, n, m, fin, i),
    ensures
        forall|x: int| 0 <= x < k ==> fin[#[trigger] s[x]],
    decreases k,
{
    if k > 0 {
        lemma_stuck_covers_safe_prefix(avail, alloc, need, n, m, fin, s, k - 1);
        let pre = members(s.take(k - 1), n);
        assert forall|x: int| 0 <= x < n && #[trigger] pre[x] implies fin[x] by {
            let idx = choose|idx: int| 0 <= idx < s.take(k - 1).len() && #[trigger] s.take(k - 1)[idx] == x;
            assert(s[idx] == x);
        }
        let t = s[k - 1];
        assert(can_finish(avail, alloc, need, n, m, pre, t));
        assert forall|j: int| 0 <= j < m implies need[t][j] <= #[trigger] work_after(
            avail,
            alloc,
            fin,
            n,
            j,
        ) by {
            lemma_released_monotone(alloc, pre, fin, j, n);
            assert(need[t][j] <= work_after(avail, alloc, pre, n, j));
        }
        assert(fin[t]);
    }
}

/// Whether `need_row` fits into `work`, entry by entry.
fn fits(need_row: &Vec<usize>, work: &Vec<usize>) -> (r: bool)
    requires
        work.len() <= need_row.len(),
    ensures
        r == forall|j: int| 0 <= j < work.len() ==> need_row@[j] <= work@[j],
{
    let m = work.len();
    for j in 0..m
        invariant
            m == work.len(),
            work.len() <= need_row.len(),
            forall|jj: int| 0 <= jj < j ==> need_row@[jj] <= work@[jj],
    {
        if need_row[j] > work[j] {
            return false;
        }
    }
    true
}

/// The safety check of the Banker's algorithm, run for `thread_count`
/// threads over the resource kinds of `available`: returns `true` when some
/// thread can never finish, that is, when no order exists in which all
/// threads can finish.
///
/// Threads are taken in passes over the thread indices; in each pass every
/// thread that has not finished and whose need fits into the free resources
/// finishes and releases what it holds. The passes stop once one of them
/// lets no thread finish.
pub fn banker_detects_deadlock(
    available: &Vec<usize>,
    allocation: &Vec<Vec<usize>>,
    need: &Vec<Vec<usize>>,
    thread_count: usize,
) -> (deadlock: bool)
    requires
        covers(matrix_view(need), thread_count as int, available.len() as int),
        rows_defined(
            available@,
            matrix_view(allocation),
            matrix_view(need),
            thread_count as int,
            available.len() as int,
        ),
        totals_fit(
            available@,
            matrix_view(allocation),
            matrix_view(need),
            thread_count as int,
            available.len() as int,
        ),
    ensures
        deadlock == !is_safe_state(
            available@,
            matrix_view(allocation),
            matrix_view(need),
            thread_count as int,
            available.len() as int,
        ),
{
    let n = thread_count;
    let m = available.len();
    let ghost avail = available@;
    let ghost alloc = matrix_view(allocation);
    let ghost nd = matrix_view(need);
    let mut work: Vec<usize> = Vec::new();
    for j in 0..m
        invariant
            m == available.len(),
            work@ == available@.take(j as int),
    {
        work.push(available[j]);
        assert(work@ =~= available@.take(j + 1));
    }
    assert(work@ =~= available@);
    let mut finish: Vec<bool> = Vec::new();
    for i in 0..n
        invariant
            finish@ =~= Seq::new(i as nat, |x: int| false),
    {
        finish.push(false);
    }
    let ghost mut order: Seq<int> = Seq::empty();
    assert(finish@ =~= members(order, n as int));
    assert forall|j: int| 0 <= j < m implies work@[j] == #[trigger] work_after(
        avail,
        alloc,
        finish@,
        n as int,
        j,
    ) by {
        lemma_released_none(alloc, finish@, j, n as int);
    }
    let mut found = true;
    while found
        invariant
            n == thread_count,
            m == available.len(),
            avail == available@,
            alloc == matrix_view(allocation),
            nd == matrix_view(need),
            covers(nd, n as int, m as int),
            rows_defined(avail, alloc, nd, n as int, m as int),
            totals_fit(avail, alloc, nd, n as int, m as int),
            work.len() == m,
            finish.len() == n,
            is_safe_sequence(avail, alloc, nd, n as int, m as int, order),
            finish@ == members(order, n as int),
            forall|j: int|
                0 <= j < m ==> work@[j] == #[trigger] work_after(avail, alloc, finish@, n as int, j),
            !found ==> forall|i: int|
                0 <= i < n && !#[trigger] finish@[i] ==> !can_finish(
                    avail,
                    alloc,
                    nd,
                    n as int,
                    m as int,
                    finish@,
                    i,
                ),
        decreases unfinished(finish@) * 2 + if found {
            1int
        } else {
            0int
        },
    {
        found = false;
        let ghost start = finish@;
        for i in 0..n
            invariant
                n == thread_count,
                m == available.len(),
                avail == available@,
                alloc == matrix_view(allocation),
                nd == matrix_view(need),
                covers(nd, n as int, m as int),
                rows_defined(avail, alloc, nd, n as int, m as int),
                totals_fit(avail, alloc, nd, n as int, m as int),
                work.len() == m,
                finish.len() == n,
                start.len() == n,
                is_safe_sequence(avail, alloc, nd, n as int, m as int, order),
                finish@ == members(order, n as int),
                forall|j: int|
                    0 <= j < m ==> work@[j] == #[trigger] work_after(
                        avail,
                        alloc,
                        finish@,
                        n as int,
                        j,
                    ),
                !found ==> finish@ == start,
                !found ==> forall|k: int|
                    0 <= k < i && !#[trigger] finish@[k] ==> !can_finish(
                        avail,
                        alloc,
                        nd,
                        n as int,
                        m as int,
                        finish@,
                        k,
                    ),
                found ==> unfinished(finish@) < unfinished(start),
        {
            if !finish[i] {
                assert(nd[i as int] == need@[i as int]@);
                let can = fits(&need[i], &work);
                if can {
                    let ghost before = finish@;
                    let ghost marked = before.update(i as int, true);
                    assert(can_finish(avail, alloc, nd, n as int, m as int, before, i as int)) by {
                        assert forall|j: int| 0 <= j < m implies nd[i as int][j]
                            <= #[trigger] work_after(avail, alloc, before, n as int, j) by {
                            assert(need@[i as int]@[j] <= work@[j]);
                        }
                    }
                    let ghost s2 = order.push(i as int);
                    proof {
                        assert forall|x: int| 0 <= x < n implies #[trigger] s2.contains(x) == (
                        order.contains(x) || x == i) by {
                            if x == i {
                                assert(s2[order.len() as int] == x);
                            } else if order.contains(x) {
                                let idx = choose|idx: int| 0 <= idx < order.len() && #[trigger] order[idx] == x;
                                assert(s2[idx] == x);
                            } else if s2.contains(x) {
                                let idx = choose|idx: int| 0 <= idx < s2.len() && #[trigger] s2[idx] == x;
                                assert(order[idx] == x);
                            }
                        }
                        assert(members(s2, n as int) =~= marked);
                        assert forall|k: int| 0 <= k < s2.len() implies can_finish(
                            avail,
                            alloc,
                            nd,
                            n as int,
                            m as int,
                            members(s2.take(k), n as int),
                            #[trigger] s2[k],
                        ) by {
                            if k < order.len() {
                                assert(s2.take(k) =~= order.take(k));
                            } else {
                                assert(s2.take(k) =~= order);
                            }
                        }
                        assert(is_safe_sequence(avail, alloc, nd, n as int, m as int, s2));
                        assert(s2[order.len() as int] == i);
                        assert(may_finish(avail, alloc, nd, n as int, m as int, i as int));
                        let fin_all = finishable(avail, alloc, nd, n as int, m as int);
                        assert forall|x: int| 0 <= x < n && #[trigger] marked[x] implies fin_all[x] by {
                            assert(s2.contains(x));
                            assert(may_finish(avail, alloc, nd, n as int, m as int, x));
                        }
                        assert forall|j: int| 0 <= j < m implies #[trigger] work_after(
                            avail,
                            alloc,
                            marked,
                            n as int,
                            j,
                        ) <= usize::MAX by {
                            lemma_released_monotone(alloc, marked, fin_all, j, n as int);
                            assert(work_after(avail, alloc, fin_all, n as int, j) <= usize::MAX);
                        }
                    }
                    for j in 0..m
                        invariant
                            n == thread_count,
                            m == available.len(),
                            avail == available@,
                            alloc == matrix_view(allocation),
                            0 <= i < n,
                            i < alloc.len(),
                            m <= alloc[i as int].len(),
                            before.len() == n,
                            !before[i as int],
                            marked == before.update(i as int, true),
                            forall|jj: int|
                                0 <= jj < m ==> #[trigger] work_after(
                                    avail,
                                    alloc,
                                    marked,
                                    n as int,
                                    jj,
                                ) <= usize::MAX,
                            work.len() == m,
                            forall|jj: int|
                                0 <= jj < j ==> work@[jj] == #[trigger] work_after(
                                    avail,
                                    alloc,
                                    marked,
                                    n as int,
                                    jj,
                                ),
                            forall|jj: int|
                                j <= jj < m ==> work@[jj] == #[trigger] work_after(
                                    avail,
                                    alloc,
                                    before,
                                    n as int,
                                    jj,
                                ),
                    {
                        proof {
                            lemma_released_mark(alloc, before, i as int, j as int, n as int);
                            assert(alloc[i as int] == allocation@[i as int]@);
                            assert(work@[j as int] == work_after(avail, alloc, before, n as int, j as int));
                            assert(work_after(avail, alloc, marked, n as int, j as int) == work@[j as int]
                                + alloc[i as int][j as int]);
                            assert(work_after(avail, alloc, marked, n as int, j as int) <= usize::MAX);
                        }
                        let add = allocation[i][j];
                        work.set(j, work[j] + add);
                        assert(work@[j as int] == work_after(avail, alloc, marked, n as int, j as int));
                    }
                    proof {
                        lemma_unfinished_mark(before, i as int);
                        order = s2;
                    }
                    finish.set(i, true);
                    found = true;
                } else {
                    proof {
                        let j = choose|j: int| 0 <= j < m && !(need@[i as int]@[j] <= work@[j]);
                        assert(work@[j] == work_after(avail, alloc, finish@, n as int, j));
                    }
                }
            }
        }
    }
    for i in 0..n
        invariant
            n == thread_count,
            m == available.len(),
            avail == available@,
            alloc == matrix_view(allocation),
            nd == matrix_view(need),
            finish.len() == n,
            finish@ == members(order, n as int),
            is_safe_sequence(avail, alloc, nd, n as int, m as int, order),
            forall|k: int| 0 <= k < i ==> finish@[k],
            forall|k: int|
                0 <= k < n && !#[trigger] finish@[k] ==> !can_finish(
                    avail,
                    alloc,
                    nd,
                    n as int,
                    m as int,
                    finish@,
                    k,
                ),
    {
        if !finish[i] {
            proof {
                assert forall|s: Seq<int>|
                    !is_complete_safe_sequence(avail, alloc, nd, n as int, m as int, s) by {
                    if is_complete_safe_sequence(avail, alloc, nd, n as int, m as int, s) {
                        lemma_stuck_covers_safe_prefix(
                            avail,
                            alloc,
                            nd,
                            n as int,
                            m as int,
                            finish@,
                            s,
                            s.len() as int,
                        );
                        assert(s.contains(i as int));
                        let idx = choose|idx: int| 0 <= idx < s.len() && s[idx] == i as int;
                        assert(finish@[s[idx]]);
                    }
                }
            }
            return true;
        }
    }
    assert(is_complete_safe_sequence(avail, alloc, nd, n as int, m as int, order)) by {
        assert forall|x: int| 0 <= x < n implies order.contains(x) by {
            assert(finish@[x]);
        }
    }
    false
}

} // verus!
