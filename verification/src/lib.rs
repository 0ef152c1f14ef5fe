//! Resource bookkeeping and deadlock avoidance for the synchronisation
//! system calls of a small teaching kernel.
//!
//! The library holds, as plain values, the per-process tables that the
//! system calls read and write (mutex, semaphore and condition-variable slots
//! and the allocation tables of deadlock detection), and decides for every
//! system call what it returns and which blocking operation the kernel has to
//! perform next.
pub mod banker;
pub mod deadlock;
pub mod laws;
pub mod process;
pub mod slots;
pub mod sync;
pub mod task;

use vstd::prelude::*;

verus! {

} // verus!
