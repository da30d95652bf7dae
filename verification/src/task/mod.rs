//! Tasks: control blocks, priorities, strides and the scheduler.

pub mod context;
pub mod manager;
pub mod priority;
pub mod processor;
pub mod signal;
pub mod stride;
pub mod task;
