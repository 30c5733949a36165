//! Synchronization core of a cooperative, single-processor teaching kernel:
//! mutual-exclusion locks (a spin variant and a queue-based blocking variant),
//! counting semaphores, condition variables, per-task resource accounting,
//! and a Banker's-algorithm deadlock detector that is consulted before a
//! blocking acquisition when a process opts in.
//!
//! The scheduler, task lifecycle and memory subsystems are external
//! collaborators: a task is identified here by its slot index, suspension is
//! recorded as a task status, and a wakeup is the transition of that status
//! back to runnable.

pub mod banker;
pub mod condvar;
pub mod fifo;
pub mod mutex;
pub mod process;
pub mod semaphore;
pub mod syscall;
pub mod task;
pub mod up;

pub use up::UPSafeCell;
pub use up::UUPSafeCell;
