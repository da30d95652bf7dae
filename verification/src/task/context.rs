//! The context of a suspended control flow and the switch between two of them.

use vstd::prelude::*;

verus! {

/// The registers that a control flow keeps across a switch: the return
/// address, the stack pointer and the callee-saved registers `s0` to `s11`.
#[derive(Debug, Clone, Copy, PartialEq, Eq)]
pub struct TaskContext {
    /// Where the control flow goes on when it is switched to.
    pub ra: usize,
    /// Its stack pointer.
    pub sp: usize,
    /// Its callee-saved registers.
    pub s: [usize; 12],
}

impl TaskContext {
    /// A context with every register zero.
    pub fn zero_init() -> (cx: Self)
        ensures
            cx.ra == 0,
            cx.sp == 0,
            forall|i: int| 0 <= i < 12 ==> cx.s[i] == 0,
    {
        TaskContext { ra: 0, sp: 0, s: [0;12] }
    }

    /// The context of a control flow that starts at `entry` on the stack
    /// whose top is `kstack_ptr`.
    pub fn goto(entry: usize, kstack_ptr: usize) -> (cx: Self)
        ensures
            cx.ra == entry,
            cx.sp == kstack_ptr,
            forall|i: int| 0 <= i < 12 ==> cx.s[i] == 0,
    {
        TaskContext { ra: entry, sp: kstack_ptr, s: [0;12] }
    }
}

/// The context switch, on a model of the processor: the registers of the
/// processor are saved into `current` and loaded from `next`.
///
/// Both contexts are taken by location: the one that is saved into stays
/// where it is, to be loaded from when its control flow is switched to again.
pub fn switch(registers: &mut TaskContext, current: &mut TaskContext, next: &TaskContext)
    ensures
        *final(current) == *old(registers),
        *final(registers) == *next,
{
    *current = *registers;
    *registers = *next;
}

} // verus!
