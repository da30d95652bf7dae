//! Counting semaphore.

use super::mutex::Acquisition;
use super::wait_queue::WaitQueue;
use vstd::prelude::*;

verus! {

/// Mathematical model of a semaphore.
pub struct SemaphoreView {
    /// Units that are free when positive; minus the number of waiting tasks
    /// when negative.
    pub count: int,
    /// The tasks that wait, head first.
    pub waiters: Seq<usize>,
}

impl SemaphoreView {
    /// Tasks wait exactly when the count is negative, and as many as it says.
    pub open spec fn wf(self) -> bool {
        if self.count < 0 {
            self.waiters.len() == -self.count
        } else {
            self.waiters.len() == 0
        }
    }

    /// The semaphore after `task` has asked for a unit: the count goes down
    /// by one, and the task waits if the count has become negative.
    pub open spec fn down(self, task: usize) -> SemaphoreView {
        SemaphoreView {
            count: self.count - 1,
            waiters: if self.count - 1 < 0 {
                self.waiters.push(task)
            } else {
                self.waiters
            },
        }
    }

    /// The semaphore after a unit has been given back: the count goes up by
    /// one, and the task at the head of the queue, if any, leaves it with the unit.
    pub open spec fn up(self) -> SemaphoreView {
        SemaphoreView {
            count: self.count + 1,
            waiters: if self.waiters.len() > 0 {
                self.waiters.drop_first()
            } else {
                self.waiters
            },
        }
    }
}

/// A counting semaphore with a queue of the tasks that wait for a unit.
#[derive(Debug)]
pub struct Semaphore {
    count: isize,
    wait_queue: WaitQueue,
}

impl View for Semaphore {
    type V = SemaphoreView;

    closed spec fn view(&self) -> SemaphoreView {
        SemaphoreView { count: self.count as int, waiters: self.wait_queue@ }
    }
}

impl Semaphore {
    /// See [`SemaphoreView::wf`].
    pub open spec fn wf(&self) -> bool {
        self@.wf() && isize::MIN <= self@.count <= isize::MAX
    }

    /// A semaphore with `res_count` free units.
    pub fn new(res_count: usize) -> (s: Self)
        requires
            res_count <= isize::MAX,
        ensures
            s.wf(),
            s@.count == res_count,
            s@.waiters.len() == 0,
    {
        Semaphore { count: res_count as isize, wait_queue: WaitQueue::new() }
    }

    /// The count: free units when positive, minus the number of waiting
    /// tasks when negative.
    pub fn count(&self) -> (n: isize)
        ensures
            n == self@.count,
    {
        self.count
    }

    /// The number of tasks that wait for a unit.
    pub fn waiting(&self) -> (n: usize)
        ensures
            n == self@.waiters.len(),
    {
        self.wait_queue.len()
    }

    /// `task` asks for a unit: it gets one if one is free, and waits at the
    /// end of the queue otherwise.
    pub fn down(&mut self, task: usize) -> (r: Acquisition)
        requires
            old(self).wf(),
            old(self)@.count > isize::MIN,
        ensures
            final(self).wf(),
            final(self)@ == old(self)@.down(task),
            r == if old(self)@.count > 0 {
                Acquisition::Granted
            } else {
                Acquisition::Blocked
            },
    {
        self.count = self.count - 1;
        if self.count < 0 {
            self.wait_queue.push(task);
            Acquisition::Blocked
        } else {
            Acquisition::Granted
        }
    }

    /// A unit is given back.  If tasks wait, the one at the head of the
    /// queue gets the unit and is returned so that it can be woken.
    pub fn up(&mut self) -> (woken: Option<usize>)
        requires
            old(self).wf(),
            old(self)@.count < isize::MAX,
        ensures
            final(self).wf(),
            final(self)@ == old(self)@.up(),
            woken == if old(self)@.waiters.len() > 0 {
                Some(old(self)@.waiters[0])
            } else {
                None
            },
    {
        self.count = self.count + 1;
        if self.count <= 0 {
            self.wait_queue.pop()
        } else {
            None
        }
    }

    /// Take `task` out of the wait queue, as when it is terminated while it
    /// waits; the unit it was waiting for counts as given back.
    pub fn cancel(&mut self, task: usize) -> (was_waiting: bool)
        requires
            old(self).wf(),
        ensures
            final(self).wf(),
            was_waiting == old(self)@.waiters.contains(task),
            was_waiting ==> final(self)@.count == old(self)@.count + 1 && exists|i: int| #[trigger]
                super::wait_queue::first_at(old(self)@.waiters, task, i) && final(self)@.waiters
                    == old(self)@.waiters.remove(i),
            !was_waiting ==> final(self)@ == old(self)@,
    {
        if self.wait_queue.remove(task) {
            self.count = self.count + 1;
            true
        } else {
            false
        }
    }
}

} // verus!
