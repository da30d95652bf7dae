//! Condition variable.
//!
//! A condition variable is used together with a blocking mutex that the
//! caller holds.  A task that waits lets go of the mutex and blocks, both in
//! one step; a task that is notified contends for the mutex again and runs
//! on only once the mutex is its own.

use super::mutex::{Acquisition, MutexBlocking, SyncError};
use super::wait_queue::WaitQueue;
use vstd::prelude::*;

verus! {

/// A condition variable: the queue of the tasks that wait to be notified.
#[derive(Debug)]
pub struct Condvar {
    wait_queue: WaitQueue,
}

impl View for Condvar {
    type V = Seq<usize>;

    closed spec fn view(&self) -> Seq<usize> {
        self.wait_queue@
    }
}

impl Condvar {
    /// A condition variable on which no task waits.
    pub fn new() -> (c: Self)
        ensures
            c@.len() == 0,
    {
        Condvar { wait_queue: WaitQueue::new() }
    }

    /// The number of tasks that wait to be notified.
    pub fn waiting(&self) -> (n: usize)
        ensures
            n == self@.len(),
    {
        self.wait_queue.len()
    }

    /// Whether `task` waits to be notified.
    pub fn is_waiting(&self, task: usize) -> (b: bool)
        ensures
            b == self@.contains(task),
    {
        self.wait_queue.contains(task)
    }

    /// `task`, which must hold `mutex`, lets go of it and waits to be
    /// notified.  Returns the task that the mutex went to, so that it can be
    /// woken.  The caller blocks `task`.
    pub fn wait(&mut self, task: usize, mutex: &mut MutexBlocking) -> (r: Result<
        Option<usize>,
        SyncError,
    >)
        requires
            old(mutex).wf(),
        ensures
            final(mutex).wf(),
            old(mutex)@.owner == Some(task) ==> {
                &&& final(mutex)@ == old(mutex)@.unlock()
                &&& final(self)@ == old(self)@.push(task)
                &&& r == Ok::<Option<usize>, SyncError>(final(mutex)@.owner)
            },
            old(mutex)@.owner != Some(task) ==> {
                &&& final(mutex)@ == old(mutex)@
                &&& final(self)@ == old(self)@
                &&& r == Err::<Option<usize>, SyncError>(SyncError::NotOwner)
            },
    {
        match mutex.unlock(task) {
            Ok(next) => {
                self.wait_queue.push(task);
                Ok(next)
            },
            Err(e) => Err(e),
        }
    }

    /// Notify the task that has waited longest, if any.  It contends for
    /// `mutex` again: it is returned with `Granted` when the mutex was free
    /// and is now its own, so that it can be woken, and with `Blocked` when
    /// it now waits for the mutex, which it will be handed in its turn.
    pub fn notify_one(&mut self, mutex: &mut MutexBlocking) -> (r: Option<(usize, Acquisition)>)
        requires
            old(mutex).wf(),
        ensures
            final(mutex).wf(),
            old(self)@.len() == 0 ==> r is None && final(self)@ == old(self)@ && final(mutex)@
                == old(mutex)@,
            old(self)@.len() > 0 ==> {
                &&& final(self)@ == old(self)@.drop_first()
                &&& final(mutex)@ == old(mutex)@.lock(old(self)@[0])
                &&& r == Some(
                    (
                        old(self)@[0],
                        if old(mutex)@.owner is None {
                            Acquisition::Granted
                        } else {
                            Acquisition::Blocked
                        },
                    ),
                )
            },
    {
        match self.wait_queue.pop() {
            Some(task) => {
                let outcome = mutex.lock(task);
                Some((task, outcome))
            },
            None => None,
        }
    }

    /// Notify all tasks that wait.  They contend for `mutex` in the order in
    /// which they waited.  Returns the task that found the mutex free and
    /// owns it now, if there is one, so that it can be woken; the others
    /// wait for the mutex.
    pub fn notify_all(&mut self, mutex: &mut MutexBlocking) -> (granted: Option<usize>)
        requires
            old(mutex).wf(),
        ensures
            final(mutex).wf(),
            final(self)@.len() == 0,
            final(mutex)@ == old(mutex)@.lock_all(old(self)@),
            granted == if old(mutex)@.owner is None && old(self)@.len() > 0 {
                Some(old(self)@[0])
            } else {
                None
            },
    {
        let mut granted: Option<usize> = None;
        while self.wait_queue.len() > 0
            invariant
                mutex.wf(),
                mutex@.lock_all(self@) == old(mutex)@.lock_all(old(self)@),
                granted == if old(mutex)@.owner is None && old(self)@.len() > self@.len() {
                    Some(old(self)@[0])
                } else {
                    None
                },
                self@.len() <= old(self)@.len(),
                old(mutex)@.owner is None && self@.len() == old(self)@.len() ==> mutex@.owner is None,
                old(mutex)@.owner is Some || self@.len() < old(self)@.len() ==> mutex@.owner is Some,
                self@.len() == old(self)@.len() ==> self@ == old(self)@,
            decreases self@.len(),
        {
            match self.wait_queue.pop() {
                Some(task) => {
                    let outcome = mutex.lock(task);
                    if outcome == Acquisition::Granted {
                        granted = Some(task);
                    }
                },
                None => {},
            }
        }
        granted
    }

    /// Take `task` out of the wait queue, as when it is terminated while it waits.
    pub fn cancel(&mut self, task: usize) -> (was_waiting: bool)
        ensures
            was_waiting == old(self)@.contains(task),
            was_waiting ==> exists|i: int| #[trigger]
                super::wait_queue::first_at(old(self)@, task, i) && final(self)@ == old(self)@.remove(
                    i,
                ),
            !was_waiting ==> final(self)@ == old(self)@,
    {
        self.wait_queue.remove(task)
    }
}

} // verus!
