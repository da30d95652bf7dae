//! Constants of the kernel.

use vstd::prelude::*;

verus! {

/// Size of the stack of a user program, in bytes.
pub const USER_STACK_SIZE: usize = 4096 * 2;

/// Size of the kernel stack of a task, in bytes.
pub const KERNEL_STACK_SIZE: usize = 4096 * 2;

/// Size of the kernel heap, in bytes.
pub const KERNEL_HEAP_SIZE: usize = 0x0200_0000;

/// Size of a page, in bytes.
pub const PAGE_SIZE: usize = 0x1000;

/// Number of bits of an address that select a byte within a page.
pub const PAGE_SIZE_BITS: usize = 0xc;

/// System calls with an identifier below this bound are counted per task.
pub const MAX_SYSCALL_NUM: usize = 500;

/// Ticks of the timer per second.
pub const CLOCK_FREQ: usize = 12_500_000;

/// End of the physical memory.
pub const MEMORY_END: usize = 0x8800_0000;

} // verus!
