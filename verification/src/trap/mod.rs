//! What a task leaves behind when it traps into the kernel.

pub mod context;
