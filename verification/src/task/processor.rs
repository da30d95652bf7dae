//! The processor: which task runs on it, and for how long it has been in
//! user mode or in the kernel.

use super::context::TaskContext;
use vstd::prelude::*;

verus! {

/// The state of the processor.
///
/// Time is attributed to the running task in two buckets, user and kernel.
/// Each bucket has a timer, which holds the time at which it was started
/// while it runs.  A timer is started and stopped at every crossing between
/// user mode and the kernel; it is never started while it runs nor stopped
/// while it does not.
#[derive(Debug, Clone, Copy)]
pub struct Processor {
    /// The task that runs on the processor, if any.
    pub current: Option<usize>,
    /// The context of the idle control flow, which selects and dispatches tasks.
    pub idle_task_cx: TaskContext,
    /// When the kernel timer was started, if it runs.
    pub kernel_timer_us: Option<usize>,
    /// When the user timer was started, if it runs.
    pub user_timer_us: Option<usize>,
}

/// The timer `timer` can be stopped at time `now_us`: it runs and was not
/// started later than that.
pub open spec fn stoppable(timer: Option<usize>, now_us: usize) -> bool {
    timer matches Some(started) && started <= now_us
}

/// The time for which the timer `timer` has run at time `now_us`.
pub open spec fn elapsed(timer: Option<usize>, now_us: usize) -> int {
    now_us - timer.unwrap()
}

impl Processor {
    /// A processor on which no task runs and no timer, and whose idle
    /// control flow has every register zero.
    pub fn new() -> (p: Self)
        ensures
            p.current is None,
            p.kernel_timer_us is None,
            p.user_timer_us is None,
            p.idle_task_cx.ra == 0,
            p.idle_task_cx.sp == 0,
            forall|i: int| 0 <= i < 12 ==> p.idle_task_cx.s[i] == 0,
    {
        Processor {
            current: None,
            idle_task_cx: TaskContext::zero_init(),
            kernel_timer_us: None,
            user_timer_us: None,
        }
    }

    /// Take the running task off the processor.
    pub fn take_current(&mut self) -> (task: Option<usize>)
        ensures
            task == old(self).current,
            final(self).current is None,
            final(self).idle_task_cx == old(self).idle_task_cx,
            final(self).kernel_timer_us == old(self).kernel_timer_us,
            final(self).user_timer_us == old(self).user_timer_us,
    {
        self.current.take()
    }

    /// The running task.
    pub fn current(&self) -> (task: Option<usize>)
        ensures
            task == self.current,
    {
        self.current
    }

    /// Start the user timer at time `now_us`.
    pub fn user_timer_start(&mut self, now_us: usize)
        requires
            old(self).user_timer_us is None,
        ensures
            *final(self) == (Processor { user_timer_us: Some(now_us), ..*old(self) }),
    {
        self.user_timer_us = Some(now_us);
    }

    /// Stop the user timer at time `now_us`; returns the time it has run for.
    pub fn user_timer_stop(&mut self, now_us: usize) -> (elapsed_us: usize)
        requires
            stoppable(old(self).user_timer_us, now_us),
        ensures
            elapsed_us == elapsed(old(self).user_timer_us, now_us),
            *final(self) == (Processor { user_timer_us: None, ..*old(self) }),
    {
        let started = match self.user_timer_us {
            Some(started) => started,
            None => now_us,
        };
        self.user_timer_us = None;
        now_us - started
    }

    /// Start the kernel timer at time `now_us`.
    pub fn kernel_timer_start(&mut self, now_us: usize)
        requires
            old(self).kernel_timer_us is None,
        ensures
            *final(self) == (Processor { kernel_timer_us: Some(now_us), ..*old(self) }),
    {
        self.kernel_timer_us = Some(now_us);
    }

    /// Stop the kernel timer at time `now_us`; returns the time it has run for.
    pub fn kernel_timer_stop(&mut self, now_us: usize) -> (elapsed_us: usize)
        requires
            stoppable(old(self).kernel_timer_us, now_us),
        ensures
            elapsed_us == elapsed(old(self).kernel_timer_us, now_us),
            *final(self) == (Processor { kernel_timer_us: None, ..*old(self) }),
    {
        let started = match self.kernel_timer_us {
            Some(started) => started,
            None => now_us,
        };
        self.kernel_timer_us = None;
        now_us - started
    }
}

} // verus!
