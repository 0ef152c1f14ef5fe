//! Task system calls: exit, yield, the time of day, and the trace call.
use vstd::prelude::*;
use crate::process::{Action, Outcome};

verus! {

/// A time of day split into seconds and microseconds.
#[derive(Clone, Copy, Debug, PartialEq, Eq, Structural)]
pub struct TimeVal {
    pub sec: usize,
    pub usec: usize,
}

/// Exit system call: the calling task is to exit with `exit_code`; the
/// kernel then runs the next task and never returns to the caller.
pub fn sys_exit(exit_code: i32) -> (action: Action)
    ensures
        action == (Action::Exit { exit_code }),
{
    Action::Exit { exit_code }
}

/// Yield system call: the calling task gives up the processor; the call
/// returns `0` once the task runs again.
pub fn sys_yield() -> (out: Outcome)
    ensures
        out == (Outcome { ret: 0, action: Action::Yield }),
{
    Outcome { ret: 0, action: Action::Yield }
}

/// Get-time system call: the time `us` (in microseconds) split into whole
/// seconds and the microseconds that remain; returns `0` and the value the
/// kernel stores for the caller.
pub fn sys_get_time(us: usize, _tz: usize) -> (r: (isize, TimeVal))
    ensures
        r.0 == 0,
        r.1.sec == us / 1_000_000,
        r.1.usec == us % 1_000_000,
        r.1.sec * 1_000_000 + r.1.usec == us,
        r.1.usec < 1_000_000,
{
    let tv = TimeVal { sec: us / 1_000_000, usec: us % 1_000_000 };
    (0, tv)
}

/// Trace system call.
///
/// - request `0`: the kernel is to report the byte at address `id`; the call
///   returns the address.
/// - request `1`: the kernel is to store the low byte of `data` at address
///   `id`; the call returns `0`.
/// - request `2`: returns how often the calling task has made system call
///   `id`, by `syscall_counts`, the calling task's row of the counters.
/// - any other request returns `-1`.
pub fn sys_trace(
    trace_request: usize,
    id: usize,
    data: usize,
    syscall_counts: &Vec<usize>,
) -> (out: Outcome)
    requires
        trace_request == 2 ==> id < syscall_counts.len(),
    ensures
        out == if trace_request == 0 {
            Outcome { ret: id as isize, action: Action::ReadByte { addr: id } }
        } else if trace_request == 1 {
            Outcome { ret: 0, action: Action::WriteByte { addr: id, value: (data & 0xff) as u8 } }
        } else if trace_request == 2 {
            Outcome { ret: syscall_counts@[id as int] as isize, action: Action::Nothing }
        } else {
            Outcome { ret: -1isize, action: Action::Nothing }
        },
{
    match trace_request {
        0 => Outcome {
            ret: #[verifier::truncate] (id as isize),
            action: Action::ReadByte { addr: id },
        },
        1 => {
            let value: u8 = #[verifier::truncate] ((data & 0xff) as u8);
            Outcome { ret: 0, action: Action::WriteByte { addr: id, value } }
        },
        2 => {
            let count = syscall_counts[id];
            Outcome { ret: #[verifier::truncate] (count as isize), action: Action::Nothing }
        },
        _ => Outcome { ret: -1, action: Action::Nothing },
    }
}

} // verus!
