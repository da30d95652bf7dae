//! Synchronization primitives and deadlock avoidance.
//!
//! Every primitive is a state machine over task identifiers.  An
//! acquisition either is granted at once or puts the calling task at the end
//! of the primitive's wait queue; a release hands the resource to the task
//! at the head of the wait queue, or marks it free when no task waits.  The
//! primitives only decide: the caller blocks and wakes the tasks they name.

pub mod bankers_algorithm;
pub mod condvar;
pub mod deadlock_avoidance;
pub mod guarded;
pub mod mutex;
pub mod protocol;
pub mod semaphore;
pub mod wait_queue;
