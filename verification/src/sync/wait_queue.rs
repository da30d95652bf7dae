//! The wait queue of a synchronization primitive.

use std::collections::VecDeque;
use vstd::prelude::*;

verus! {

/// The tasks blocked on one primitive, in the order in which they arrived.
#[derive(Debug)]
pub struct WaitQueue {
    queue: VecDeque<usize>,
}

impl View for WaitQueue {
    type V = Seq<usize>;

    closed spec fn view(&self) -> Seq<usize> {
        self.queue@
    }
}

impl WaitQueue {
    /// A queue in which no task waits.
    pub fn new() -> (q: Self)
        ensures
            q@ == Seq::<usize>::empty(),
    {
        WaitQueue { queue: VecDeque::new() }
    }

    /// The number of tasks that wait.
    pub fn len(&self) -> (n: usize)
        ensures
            n == self@.len(),
    {
        self.queue.len()
    }

    /// Whether no task waits.
    pub fn is_empty(&self) -> (b: bool)
        ensures
            b == (self@.len() == 0),
    {
        self.queue.len() == 0
    }

    /// The position of `task` in the queue, counted from the head.
    pub fn position(&self, task: usize) -> (found: Option<usize>)
        ensures
            match found {
                Some(i) => i < self@.len() && self@[i as int] == task && forall|k: int|
                    0 <= k < i ==> self@[k] != task,
                None => !self@.contains(task),
            },
    {
        let mut i: usize = 0;
        while i < self.queue.len()
            invariant
                i <= self.queue.len(),
                forall|k: int| 0 <= k < i ==> self@[k] != task,
            decreases self.queue.len() - i,
        {
            if self.queue[i] == task {
                return Some(i);
            }
            i += 1;
        }
        None
    }

    /// Whether `task` waits in the queue.
    pub fn contains(&self, task: usize) -> (b: bool)
        ensures
            b == self@.contains(task),
    {
        self.position(task).is_some()
    }

    /// Put `task` at the end of the queue.
    pub fn push(&mut self, task: usize)
        ensures
            final(self)@ == old(self)@.push(task),
    {
        self.queue.push_back(task);
    }

    /// Take the task at the head of the queue.
    pub fn pop(&mut self) -> (head: Option<usize>)
        ensures
            match head {
                Some(task) => old(self)@.len() > 0 && task == old(self)@[0] && final(self)@ == old(
                    self,
                )@.drop_first(),
                None => old(self)@.len() == 0 && final(self)@ == old(self)@,
            },
    {
        let head = self.queue.pop_front();
        proof {
            if head.is_some() {
                assert(self@ =~= old(self)@.drop_first());
            }
        }
        head
    }

    /// Take `task` out of the queue, wherever it waits; the others keep their order.
    ///
    /// Returns whether the task was waiting.  A task that waits more than
    /// once leaves its place nearest to the head.
    pub fn remove(&mut self, task: usize) -> (was_waiting: bool)
        ensures
            was_waiting == old(self)@.contains(task),
            was_waiting ==> exists|i: int| #[trigger]
                first_at(old(self)@, task, i) && final(self)@ == old(self)@.remove(i),
            !was_waiting ==> final(self)@ == old(self)@,
    {
        match self.position(task) {
            Some(i) => {
                self.queue.remove(i);
                proof {
                    assert(first_at(old(self)@, task, i as int));
                }
                true
            },
            None => false,
        }
    }
}

/// Position `i` is the first at which `task` waits in `queue`.
pub open spec fn first_at(queue: Seq<usize>, task: usize, i: int) -> bool {
    &&& 0 <= i < queue.len()
    &&& queue[i] == task
    &&& forall|k: int| 0 <= k < i ==> queue[k] != task
}

} // verus!
