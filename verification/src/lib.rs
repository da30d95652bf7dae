//! Scheduling and concurrency control for a single-core teaching kernel:
//! task and process control blocks, stride scheduling, blocking
//! synchronization primitives and banker's-algorithm deadlock avoidance.

pub mod config;
pub mod fs;
pub mod sync;
pub mod syscall;
pub mod task;
pub mod timer;
pub mod trap;
pub mod util;
