# Synchronisation system calls with deadlock detection

A verified library for the synchronisation and task system calls of a small
teaching kernel.

- `src/process.rs`: the per-process tables (mutex, semaphore and
  condition-variable slots, allocation tables) and the operations a call hands
  back to the kernel.
- `src/slots.rs`: lowest-free-slot allocation.
- `src/banker.rs`: the safety check of the Banker's algorithm, proved to
  report a deadlock exactly when no order exists in which all threads finish.
- `src/deadlock.rs`: deadlock detection for a semaphore request.
- `src/sync.rs`, `src/task.rs`: the system calls.
- `src/laws.rs`: properties relating several calls.
- `app/lib.rs`: kernel glue that reads the kernel's state, calls the library
  and performs the returned operation.
