//! The per-process tables that the synchronisation system calls work on, and
//! the operations those calls hand back to the kernel.
use vstd::prelude::*;

verus! {

/// How a mutex waits: by spinning or by blocking the calling thread.
#[derive(Clone, Copy, Debug, PartialEq, Eq, Structural)]
pub enum MutexKind {
    Spin,
    Blocking,
}

/// What deadlock detection reads of a semaphore: its counter, which is
/// negative while threads wait on it.
#[derive(Clone, Copy, Debug, PartialEq, Eq, Structural)]
pub struct SemaphoreState {
    pub count: isize,
}

/// An occupied condition-variable slot.
#[derive(Clone, Copy, Debug, PartialEq, Eq, Structural)]
pub struct Condvar {}

/// The synchronisation tables of a process.
///
/// Slot `i` of `mutex_list`, `semaphore_list` and `condvar_list` is the
/// object with id `i`, or `None` when the slot is free. `mutex_allocation[m]`
/// is `0` while mutex `m` is free and `tid + 1` while thread `tid` holds it.
/// `semaphore_allocation[t][s]` counts the resources of semaphore `s` that
/// thread `t` holds.
pub struct ProcessControlBlockInner {
    /// The number of entries of the process's task table.
    pub task_count: usize,
    pub mutex_list: Vec<Option<MutexKind>>,
    pub semaphore_list: Vec<Option<SemaphoreState>>,
    pub condvar_list: Vec<Option<Condvar>>,
    pub mutex_allocation: Vec<usize>,
    pub semaphore_allocation: Vec<Vec<usize>>,
    pub deadlock_detect_enabled: bool,
}

/// The tables of a process as mathematical values.
#[verifier::ext_equal]
pub struct ProcessModel {
    pub task_count: int,
    pub mutex_list: Seq<Option<MutexKind>>,
    pub semaphore_list: Seq<Option<SemaphoreState>>,
    pub condvar_list: Seq<Option<Condvar>>,
    pub mutex_allocation: Seq<usize>,
    pub semaphore_allocation: Seq<Seq<usize>>,
    pub deadlock_detect_enabled: bool,
}

impl View for ProcessControlBlockInner {
    type V = ProcessModel;

    open spec fn view(&self) -> ProcessModel {
        ProcessModel {
            task_count: self.task_count as int,
            mutex_list: self.mutex_list@,
            semaphore_list: self.semaphore_list@,
            condvar_list: self.condvar_list@,
            mutex_allocation: self.mutex_allocation@,
            semaphore_allocation: self.semaphore_allocation@.map_values(|r: Vec<usize>| r@),
            deadlock_detect_enabled: self.deadlock_detect_enabled,
        }
    }
}

/// What the kernel has to do after a system call has been decided.
#[derive(Clone, Copy, Debug, PartialEq, Eq, Structural)]
pub enum Action {
    /// Nothing more: return to the caller.
    Nothing,
    /// Register a timer for the calling task at `expire_ms`, then block it.
    SleepUntil { expire_ms: usize },
    LockMutex { mutex_id: usize },
    UnlockMutex { mutex_id: usize },
    SemaphoreUp { sem_id: usize },
    SemaphoreDown { sem_id: usize },
    SignalCondvar { condvar_id: usize },
    /// Release mutex `mutex_id`, wait on the condition variable, then take the
    /// mutex again.
    WaitCondvar { condvar_id: usize, mutex_id: usize },
    /// Suspend the calling task and run the next one.
    Yield,
    /// Exit the calling task with `exit_code` and run the next one.
    Exit { exit_code: i32 },
    /// Read the byte at address `addr` and report it.
    ReadByte { addr: usize },
    /// Store the byte `value` at address `addr`.
    WriteByte { addr: usize, value: u8 },
}

/// The value a system call returns to user space, and what the kernel has to
/// do before it returns.
#[derive(Clone, Copy, Debug, PartialEq, Eq, Structural)]
pub struct Outcome {
    pub ret: isize,
    pub action: Action,
}

/// `s` with zeros appended up to length `len`.
pub open spec fn pad_zeros(s: Seq<usize>, len: int) -> Seq<usize> {
    if len <= s.len() {
        s
    } else {
        s + Seq::new((len - s.len()) as nat, |x: int| 0usize)
    }
}

/// `rows` with rows of `width` zeros appended up to `len` rows.
pub open spec fn pad_rows(rows: Seq<Seq<usize>>, len: int, width: int) -> Seq<Seq<usize>> {
    if len <= rows.len() {
        rows
    } else {
        rows + Seq::new((len - rows.len()) as nat, |x: int| Seq::new(width as nat, |y: int| 0usize))
    }
}

/// `len` zeros.
pub(crate) fn zeros(len: usize) -> (v: Vec<usize>)
    ensures
        v@ == Seq::new(len as nat, |x: int| 0usize),
{
    let mut v: Vec<usize> = Vec::new();
    for i in 0..len
        invariant
            v@ == Seq::new(i as nat, |x: int| 0usize),
    {
        v.push(0);
        assert(v@ =~= Seq::new((i + 1) as nat, |x: int| 0usize));
    }
    v
}

} // verus!
