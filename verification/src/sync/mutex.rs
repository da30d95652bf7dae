//! Mutual exclusion: a spinning and a blocking mutex.

use super::wait_queue::WaitQueue;
use vstd::prelude::*;

verus! {

/// What a task that asked for a resource has to do next.
#[derive(Debug, Clone, Copy, PartialEq, Eq, Structural)]
pub enum Acquisition {
    /// The resource is the task's: it goes on.
    Granted,
    /// The task has been put at the end of the wait queue: it blocks until
    /// the resource is handed to it.
    Blocked,
    /// The resource is taken and there is no queue: the task yields the
    /// processor and asks again.
    Busy,
}

/// A misuse of a primitive by its caller.
#[derive(Debug, Clone, Copy, PartialEq, Eq, Structural)]
pub enum SyncError {
    /// The task does not hold the mutex that it wants to release.
    NotOwner,
}

/// Mathematical model of a mutex: who holds it and who waits for it, head first.
pub struct MutexView {
    /// The task that holds the mutex, if any.
    pub owner: Option<usize>,
    /// The tasks that wait for the mutex, in the order in which they arrived.
    pub waiters: Seq<usize>,
}

impl MutexView {
    /// A free mutex has no waiters.
    pub open spec fn wf(self) -> bool {
        self.owner is None ==> self.waiters.len() == 0
    }

    /// The mutex after `task` has asked for it: it becomes the owner of a
    /// free mutex and goes to the end of the queue of a held one.
    pub open spec fn lock(self, task: usize) -> MutexView {
        if self.owner is None {
            MutexView { owner: Some(task), waiters: self.waiters }
        } else {
            MutexView { owner: self.owner, waiters: self.waiters.push(task) }
        }
    }

    /// The mutex after its owner has let go of it: the head of the queue
    /// owns it now, or nobody when no task waited.
    pub open spec fn unlock(self) -> MutexView {
        if self.waiters.len() > 0 {
            MutexView { owner: Some(self.waiters[0]), waiters: self.waiters.drop_first() }
        } else {
            MutexView { owner: None, waiters: self.waiters }
        }
    }

    /// The mutex after `n` releases in a row, each by the owner of the moment.
    pub open spec fn unlock_times(self, n: nat) -> MutexView
        decreases n,
    {
        if n == 0 {
            self
        } else {
            self.unlock().unlock_times((n - 1) as nat)
        }
    }

    /// The mutex after all of `tasks` have asked for it, one after the other.
    pub open spec fn lock_all(self, tasks: Seq<usize>) -> MutexView
        decreases tasks.len(),
    {
        if tasks.len() == 0 {
            self
        } else {
            self.lock(tasks[0]).lock_all(tasks.drop_first())
        }
    }

    /// When tasks ask for the mutex one after the other, the first of them
    /// gets a free mutex and the others wait behind those that wait already,
    /// in the order in which they asked.
    pub proof fn lemma_lock_all(self, tasks: Seq<usize>)
        ensures
            tasks.len() == 0 ==> self.lock_all(tasks) == self,
            tasks.len() > 0 && self.owner is None ==> self.lock_all(tasks).owner == Some(tasks[0])
                && self.lock_all(tasks).waiters == self.waiters + tasks.drop_first(),
            tasks.len() > 0 && self.owner is Some ==> self.lock_all(tasks).owner == self.owner
                && self.lock_all(tasks).waiters == self.waiters + tasks,
        decreases tasks.len(),
    {
        if tasks.len() > 0 {
            let next = self.lock(tasks[0]);
            let rest = tasks.drop_first();
            next.lemma_lock_all(rest);
            if self.owner is None {
                if rest.len() > 0 {
                    assert(next.waiters + rest =~= self.waiters + tasks.drop_first());
                } else {
                    assert(self.waiters + rest =~= self.waiters);
                    assert(next.lock_all(rest) == next);
                }
            } else {
                if rest.len() > 0 {
                    assert(next.waiters + rest =~= self.waiters + tasks);
                } else {
                    assert(next.waiters =~= self.waiters + tasks);
                }
            }
        }
    }

    /// First in, first out: the `n`-th release hands the mutex to the task
    /// that was `n`-th in the queue, and those behind it move up.
    pub proof fn lemma_fifo(self, n: nat)
        requires
            0 < n <= self.waiters.len(),
        ensures
            self.unlock_times(n).owner == Some(self.waiters[n - 1]),
            self.unlock_times(n).waiters == self.waiters.skip(n as int),
        decreases n,
    {
        let next = self.unlock();
        if n == 1 {
            assert(next.unlock_times(0) == next);
            assert(self.waiters.drop_first() =~= self.waiters.skip(1));
        } else {
            next.lemma_fifo((n - 1) as nat);
            assert(next.waiters.skip(n - 1) =~= self.waiters.skip(n as int));
        }
    }

    /// Fairness: of two tasks that wait, the one that arrived first is
    /// handed the mutex first.  With every task waiting once, the task at
    /// place `first` owns the mutex after `first + 1` releases, and the task
    /// at the later place `second` after `second + 1` releases and not before.
    pub proof fn lemma_fifo_fairness(self, first: int, second: int)
        requires
            0 <= first < second < self.waiters.len(),
            self.waiters.no_duplicates(),
        ensures
            self.unlock_times((first + 1) as nat).owner == Some(self.waiters[first]),
            self.unlock_times((second + 1) as nat).owner == Some(self.waiters[second]),
            forall|n: nat|
                0 < n <= second ==> #[trigger] self.unlock_times(n).owner != Some(
                    self.waiters[second],
                ),
    {
        self.lemma_fifo((first + 1) as nat);
        self.lemma_fifo((second + 1) as nat);
        assert forall|n: nat| 0 < n <= second implies #[trigger] self.unlock_times(n).owner
            != Some(self.waiters[second]) by {
            self.lemma_fifo(n);
            assert(self.waiters[n - 1] != self.waiters[second]);
        }
    }
}

/// A mutex whose contenders spin: a task that finds it taken yields the
/// processor and tries again.
#[derive(Debug)]
pub struct MutexSpin {
    owner: Option<usize>,
}

impl MutexSpin {
    /// The task that holds the mutex, if any.
    pub closed spec fn owner(&self) -> Option<usize> {
        self.owner
    }

    /// A free mutex.
    pub fn new() -> (m: Self)
        ensures
            m.owner() is None,
    {
        MutexSpin { owner: None }
    }

    /// The task that holds the mutex, if any.
    pub fn holder(&self) -> (h: Option<usize>)
        ensures
            h == self.owner(),
    {
        self.owner
    }

    /// `task` asks for the mutex: it gets a free one, and is told to yield
    /// and ask again when the mutex is taken.
    pub fn lock(&mut self, task: usize) -> (r: Acquisition)
        ensures
            old(self).owner() is None ==> r == Acquisition::Granted && final(self).owner() == Some(
                task,
            ),
            old(self).owner() is Some ==> r == Acquisition::Busy && final(self).owner() == old(
                self,
            ).owner(),
    {
        match self.owner {
            None => {
                self.owner = Some(task);
                Acquisition::Granted
            },
            Some(_) => Acquisition::Busy,
        }
    }

    /// `task` lets go of the mutex, which it must hold.
    pub fn unlock(&mut self, task: usize) -> (r: Result<(), SyncError>)
        ensures
            old(self).owner() == Some(task) ==> r is Ok && final(self).owner() is None,
            old(self).owner() != Some(task) ==> r == Err::<(), SyncError>(SyncError::NotOwner)
                && final(self).owner() == old(self).owner(),
    {
        let held = match self.owner {
            Some(holder) => holder == task,
            None => false,
        };
        if held {
            self.owner = None;
            Ok(())
        } else {
            Err(SyncError::NotOwner)
        }
    }
}

/// A mutex whose contenders block: a task that finds it taken waits in a
/// queue and is handed the mutex when its turn has come.
#[derive(Debug)]
pub struct MutexBlocking {
    owner: Option<usize>,
    wait_queue: WaitQueue,
}

impl View for MutexBlocking {
    type V = MutexView;

    closed spec fn view(&self) -> MutexView {
        MutexView { owner: self.owner, waiters: self.wait_queue@ }
    }
}

impl MutexBlocking {
    /// A free mutex has no waiters.
    pub open spec fn wf(&self) -> bool {
        self@.wf()
    }

    /// A free mutex.
    pub fn new() -> (m: Self)
        ensures
            m.wf(),
            m@.owner is None,
            m@.waiters.len() == 0,
    {
        MutexBlocking { owner: None, wait_queue: WaitQueue::new() }
    }

    /// The task that holds the mutex, if any.
    pub fn holder(&self) -> (h: Option<usize>)
        ensures
            h == self@.owner,
    {
        self.owner
    }

    /// The number of tasks that wait for the mutex.
    pub fn waiting(&self) -> (n: usize)
        ensures
            n == self@.waiters.len(),
    {
        self.wait_queue.len()
    }

    /// Whether `task` waits for the mutex.
    pub fn is_waiting(&self, task: usize) -> (b: bool)
        ensures
            b == self@.waiters.contains(task),
    {
        self.wait_queue.contains(task)
    }

    /// `task` asks for the mutex: it gets a free one at once, and waits at
    /// the end of the queue of one that is held.
    pub fn lock(&mut self, task: usize) -> (r: Acquisition)
        requires
            old(self).wf(),
        ensures
            final(self).wf(),
            final(self)@ == old(self)@.lock(task),
            r == if old(self)@.owner is None {
                Acquisition::Granted
            } else {
                Acquisition::Blocked
            },
    {
        match self.owner {
            None => {
                self.owner = Some(task);
                Acquisition::Granted
            },
            Some(_) => {
                self.wait_queue.push(task);
                Acquisition::Blocked
            },
        }
    }

    /// `task` lets go of the mutex, which it must hold.  The mutex goes to
    /// the task at the head of the queue, which is returned so that it can be
    /// woken, or becomes free.
    pub fn unlock(&mut self, task: usize) -> (r: Result<Option<usize>, SyncError>)
        requires
            old(self).wf(),
        ensures
            final(self).wf(),
            old(self)@.owner == Some(task) ==> final(self)@ == old(self)@.unlock() && r == Ok::<
                Option<usize>,
                SyncError,
            >(final(self)@.owner),
            old(self)@.owner != Some(task) ==> final(self)@ == old(self)@ && r == Err::<
                Option<usize>,
                SyncError,
            >(SyncError::NotOwner),
    {
        let held = match self.owner {
            Some(holder) => holder == task,
            None => false,
        };
        if held {
            let next = self.wait_queue.pop();
            self.owner = next;
            Ok(next)
        } else {
            Err(SyncError::NotOwner)
        }
    }

    /// Take `task` out of the wait queue, as when it is terminated while it waits.
    pub fn cancel(&mut self, task: usize) -> (was_waiting: bool)
        requires
            old(self).wf(),
        ensures
            final(self).wf(),
            final(self)@.owner == old(self)@.owner,
            was_waiting == old(self)@.waiters.contains(task),
            was_waiting ==> exists|i: int| #[trigger]
                super::wait_queue::first_at(old(self)@.waiters, task, i) && final(self)@.waiters
                    == old(self)@.waiters.remove(i),
            !was_waiting ==> final(self)@ == old(self)@,
    {
        self.wait_queue.remove(task)
    }
}

} // verus!
