//! A mutex under deadlock detection.
//!
//! The mutex stands for one unit of a resource in the books of a banker's
//! algorithm.  A task that asks for the mutex is refused, before it gets the
//! mutex or waits for it, when the books say that not all tasks could
//! complete any more.  The books follow the mutex: the unit is booked to the
//! task that owns the mutex, and goes from the task that lets go of the
//! mutex to the task that the mutex is handed to.

use super::deadlock_avoidance::{
    BankersAlgorithm, BankersView, RequestResult, ResourceIdentifier, TaskIdentifier,
};
use super::mutex::{Acquisition, MutexBlocking, MutexView, SyncError};
use super::protocol::{all_blocked, mutex_cancel, mutex_lock, mutex_unlock};
use crate::task::manager::TaskManager;
use crate::task::task::TaskStatus;
use vstd::prelude::*;

verus! {

/// The books `banker` follow the mutex `mutex` as the one unit of
/// `resource`: the unit is free when the mutex is, and is held by the owner
/// of the mutex when it is not; every task that waits for the mutex has
/// announced its need.
pub open spec fn accounted(banker: BankersView, mutex: MutexView, resource: ResourceIdentifier) -> bool {
    &&& banker.capacity(resource) == 1
    &&& match mutex.owner {
        None => banker.available(resource) == 1,
        Some(owner) => banker.available(resource) == 0 && banker.allocation(owner, resource) == 1,
    }
    &&& forall|i: int|
        0 <= i < mutex.waiters.len() ==> banker.need(#[trigger] mutex.waiters[i], resource) >= 1
}

/// `post` is `pre` after the unit of resource `r` that task `from` held has
/// gone to task `to`, which had announced its need.
pub open spec fn hands_over(
    pre: BankersView,
    post: BankersView,
    from: TaskIdentifier,
    to: TaskIdentifier,
    r: ResourceIdentifier,
) -> bool {
    &&& post.task_ids() == pre.task_ids()
    &&& forall|q: ResourceIdentifier| post.available(q) == pre.available(q)
    &&& forall|u: TaskIdentifier, q: ResourceIdentifier|
        (q != r || (u != from && u != to)) ==> post.entry(u, q) == pre.entry(u, q)
    &&& post.need(to, r) + 1 == pre.need(to, r)
    &&& if from == to {
        post.allocation(to, r) == pre.allocation(to, r)
    } else {
        &&& post.allocation(from, r) + 1 == pre.allocation(from, r)
        &&& post.need(from, r) == pre.need(from, r)
        &&& post.allocation(to, r) == pre.allocation(to, r) + 1
    }
}

/// A free mutex that is the one unit of `resource`, of which the books
/// `banker` have no units so far.
pub fn guarded_new(banker: &mut BankersAlgorithm, resource: ResourceIdentifier) -> (mutex:
    MutexBlocking)
    requires
        old(banker).wf(),
        old(banker)@.capacity(resource) == 0,
    ensures
        final(banker).wf(),
        mutex.wf(),
        mutex@.owner is None,
        mutex@.waiters.len() == 0,
        accounted(final(banker)@, mutex@, resource),
        final(banker)@.tasks == old(banker)@.tasks,
        forall|r: ResourceIdentifier|
            r != resource ==> final(banker)@.available(r) == old(banker)@.available(r),
        forall|r: ResourceIdentifier|
            r != resource ==> final(banker)@.capacity(r) == old(banker)@.capacity(r),
{
    banker.add_resource(resource, 1);
    MutexBlocking::new()
}

/// The running task asks for `mutex`, which is the unit of `resource` in
/// the books `banker`, at time `now_us`.
///
/// `Ok(Granted)`: the mutex was free and is the task's, the unit is booked
/// to it, and the books are safe.  `Ok(Blocked)`: the mutex is held; the
/// task has announced its need, waits at the end of the queue of the mutex
/// and has left the processor, and the books are safe.  `Err(Deadlock)`:
/// the task is refused before it waits, because with the free mutex granted
/// to it, or with its need of the held mutex announced, not all tasks could
/// complete any more; nothing has changed.
pub fn guarded_lock(
    manager: &mut TaskManager,
    banker: &mut BankersAlgorithm,
    mutex: &mut MutexBlocking,
    resource: ResourceIdentifier,
    now_us: usize,
) -> (r: Result<Acquisition, RequestResult>)
    requires
        old(manager).wf(),
        old(banker).wf(),
        old(mutex).wf(),
        old(manager).kernel_time_due(now_us),
        old(manager).processor().user_timer_us is None,
        all_blocked(old(manager), old(mutex)@.waiters),
        accounted(old(banker)@, old(mutex)@, resource),
        old(banker)@.need(old(manager).current().unwrap(), resource) < usize::MAX,
    ensures
        final(manager).wf(),
        final(banker).wf(),
        final(mutex).wf(),
        all_blocked(final(manager), final(mutex)@.waiters),
        accounted(final(banker)@, final(mutex)@, resource),
        forall|q: ResourceIdentifier| #[trigger]
            final(banker)@.capacity(q) == old(banker)@.capacity(q),
        ({
            let task = old(manager).current().unwrap();
            match r {
                Err(refusal) => {
                    &&& refusal == RequestResult::Deadlock
                    &&& final(mutex)@ == old(mutex)@
                    &&& final(manager).same_as(old(manager))
                    &&& final(banker)@ == old(banker)@
                    &&& if old(mutex)@.owner is None {
                        forall|post: BankersView|
                            old(banker)@.takes(post, task, resource, 1) ==> !post.is_safe()
                    } else {
                        forall|post: BankersView|
                            old(banker)@.declares(post, task, resource, 1) ==> !post.is_safe()
                    }
                },
                Ok(outcome) => {
                    &&& final(mutex)@ == old(mutex)@.lock(task)
                    &&& final(banker)@.is_safe()
                    &&& if old(mutex)@.owner is None {
                        &&& outcome == Acquisition::Granted
                        &&& final(manager).same_as(old(manager))
                        &&& old(banker)@.takes(final(banker)@, task, resource, 1)
                    } else {
                        &&& outcome == Acquisition::Blocked
                        &&& final(manager).left_from(old(manager), TaskStatus::Blocked, now_us)
                        &&& old(banker)@.declares(final(banker)@, task, resource, 1)
                    }
                },
            }
        }),
{
    let task = match manager.current_task() {
        Some(task) => task,
        None => 0,
    };
    let ghost pre = banker@;
    if mutex.holder().is_none() {
        match banker.take(task, resource, 1) {
            RequestResult::Success => {
                proof {
                    pre.lemma_held_within_capacity(task, resource);
                }
                let outcome = mutex_lock(manager, mutex, now_us);
                Ok(outcome)
            },
            _ => Err(RequestResult::Deadlock),
        }
    } else {
        match banker.request(task, resource, 1) {
            RequestResult::Success => {},
            _ => {
                return Err(RequestResult::Deadlock);
            },
        }
        let outcome = mutex_lock(manager, mutex, now_us);
        proof {
            let post = banker@;
            let waiters = mutex@.waiters;
            assert(waiters == old(mutex)@.waiters.push(task));
            assert forall|i: int| 0 <= i < waiters.len() implies post.need(
                #[trigger] waiters[i],
                resource,
            ) >= 1 by {
                if i < old(mutex)@.waiters.len() {
                    let w = old(mutex)@.waiters[i];
                    assert(waiters[i] == w);
                    assert(pre.need(w, resource) >= 1);
                    if w != task {
                        assert(post.entry(w, resource) == pre.entry(w, resource));
                    }
                }
            }
            let owner = old(mutex)@.owner.unwrap();
            if owner != task {
                assert(post.entry(owner, resource) == pre.entry(owner, resource));
            }
        }
        Ok(outcome)
    }
}

/// The running task lets go of `mutex`, which is the unit of `resource` in
/// the books `banker` and which the task must hold.  The mutex goes to the
/// task at the head of the queue, which is woken and returned, and so does
/// the unit in the books; or both become free.  A task that does not hold
/// the mutex changes nothing.
pub fn guarded_unlock(
    manager: &mut TaskManager,
    banker: &mut BankersAlgorithm,
    mutex: &mut MutexBlocking,
    resource: ResourceIdentifier,
) -> (r: Result<Option<usize>, SyncError>)
    requires
        old(manager).wf(),
        old(banker).wf(),
        old(mutex).wf(),
        old(manager).current() is Some,
        all_blocked(old(manager), old(mutex)@.waiters),
        accounted(old(banker)@, old(mutex)@, resource),
    ensures
        final(manager).wf(),
        final(banker).wf(),
        final(mutex).wf(),
        all_blocked(final(manager), final(mutex)@.waiters),
        accounted(final(banker)@, final(mutex)@, resource),
        forall|q: ResourceIdentifier| #[trigger]
            final(banker)@.capacity(q) == old(banker)@.capacity(q),
        old(mutex)@.owner != old(manager).current() ==> {
            &&& r == Err::<Option<usize>, SyncError>(SyncError::NotOwner)
            &&& final(mutex)@ == old(mutex)@
            &&& final(manager).same_as(old(manager))
            &&& final(banker)@ == old(banker)@
        },
        old(mutex)@.owner == old(manager).current() ==> {
            let task = old(manager).current().unwrap();
            &&& r == Ok::<Option<usize>, SyncError>(final(mutex)@.owner)
            &&& final(mutex)@ == old(mutex)@.unlock()
            &&& match final(mutex)@.owner {
                Some(next) => {
                    &&& final(manager).woken_from(old(manager), next)
                    &&& hands_over(old(banker)@, final(banker)@, task, next, resource)
                },
                None => {
                    &&& final(manager).same_as(old(manager))
                    &&& old(banker)@.gives_back(final(banker)@, task, resource, 1)
                },
            }
        },
{
    let task = match manager.current_task() {
        Some(task) => task,
        None => 0,
    };
    let ghost pre = banker@;
    let r = mutex_unlock(manager, mutex);
    match r {
        Ok(next) => {
            banker.release(task, resource, 1);
            let ghost freed = banker@;
            match next {
                Some(next) => {
                    proof {
                        assert(old(mutex)@.waiters[0] == next);
                        assert(pre.need(old(mutex)@.waiters[0], resource) >= 1);
                        if next != task {
                            assert(freed.entry(next, resource) == pre.entry(next, resource));
                        }
                    }
                    banker.grant(next, resource, 1);
                    proof {
                        let post = banker@;
                        freed.lemma_held_within_capacity(next, resource);
                        assert(freed.capacity(resource) == 1);
                        assert(freed.available(resource) == 1);
                        assert(post.allocation(next, resource) == 1);
                        assert(post.available(resource) == 0);
                        assert forall|u: TaskIdentifier, q: ResourceIdentifier|
                            (q != resource || (u != task && u != next)) implies post.entry(u, q)
                            == pre.entry(u, q) by {
                            assert(post.entry(u, q) == freed.entry(u, q));
                            assert(freed.entry(u, q) == pre.entry(u, q));
                        }
                        assert forall|q: ResourceIdentifier| post.available(q) == pre.available(
                            q,
                        ) by {
                            if q != resource {
                                assert(post.available(q) == freed.available(q));
                            }
                        }
                        if next != task {
                            assert(post.entry(task, resource) == freed.entry(task, resource));
                        }
                        let rest = mutex@.waiters;
                        assert(rest == old(mutex)@.waiters.drop_first());
                        assert forall|i: int| 0 <= i < rest.len() implies post.need(
                            #[trigger] rest[i],
                            resource,
                        ) >= 1 by {
                            let w = old(mutex)@.waiters[i + 1];
                            assert(rest[i] == w);
                            assert(pre.need(w, resource) >= 1);
                            assert(w != next) by {
                                assert(old(mutex)@.waiters[i + 1] != old(mutex)@.waiters[0]);
                            }
                            if w != task {
                                assert(post.entry(w, resource) == pre.entry(w, resource));
                            } else {
                                assert(post.entry(w, resource) == freed.entry(w, resource));
                            }
                        }
                    }
                },
                None => {
                    proof {
                        assert(freed.available(resource) == 1);
                        assert(mutex@.waiters.len() == 0);
                    }
                },
            }
        },
        Err(_) => {},
    }
    r
}


/// The task of process `pid` is terminated with `exit_code` while it waits
/// for `mutex`, which is the unit of `resource` in the books `banker`: it
/// leaves the queue of the mutex, its need is no longer announced, and its
/// process becomes a zombie.  Returns whether the task was waiting; if it
/// was not, nothing changes.
pub fn guarded_cancel(
    manager: &mut TaskManager,
    banker: &mut BankersAlgorithm,
    mutex: &mut MutexBlocking,
    resource: ResourceIdentifier,
    pid: usize,
    exit_code: i32,
) -> (was_waiting: bool)
    requires
        old(manager).wf(),
        old(banker).wf(),
        old(mutex).wf(),
        all_blocked(old(manager), old(mutex)@.waiters),
        accounted(old(banker)@, old(mutex)@, resource),
    ensures
        final(manager).wf(),
        final(banker).wf(),
        final(mutex).wf(),
        all_blocked(final(manager), final(mutex)@.waiters),
        accounted(final(banker)@, final(mutex)@, resource),
        was_waiting == old(mutex)@.waiters.contains(pid),
        final(mutex)@.owner == old(mutex)@.owner,
        was_waiting ==> {
            &&& final(mutex)@.waiters == old(mutex)@.waiters.remove(
                old(mutex)@.waiters.index_of(pid),
            )
            &&& final(manager).buried_from(old(manager), pid, exit_code)
            &&& old(banker)@.withdraws(final(banker)@, pid, resource, 1)
        },
        !was_waiting ==> {
            &&& final(mutex)@ == old(mutex)@
            &&& final(manager).same_as(old(manager))
            &&& final(banker)@ == old(banker)@
        },
{
    if !mutex_cancel(manager, mutex, pid, exit_code) {
        return false;
    }
    let ghost pre = banker@;
    proof {
        let waiters = old(mutex)@.waiters;
        let at = waiters.index_of(pid);
        assert(0 <= at < waiters.len() && waiters[at] == pid);
        assert(pre.need(waiters[at], resource) >= 1);
    }
    banker.withdraw(pid, resource, 1);
    proof {
        let post = banker@;
        let waiters = old(mutex)@.waiters;
        let at = waiters.index_of(pid);
        let rest = mutex@.waiters;
        assert forall|i: int| 0 <= i < rest.len() implies post.need(
            #[trigger] rest[i],
            resource,
        ) >= 1 by {
            let k = if i < at {
                i
            } else {
                i + 1
            };
            assert(rest[i] == waiters[k]);
            assert(pre.need(waiters[k], resource) >= 1);
            assert(waiters[k] != waiters[at]);
            assert(post.entry(rest[i], resource) == pre.entry(rest[i], resource));
        }
        if let Some(owner) = mutex@.owner {
            if owner != pid {
                assert(post.entry(owner, resource) == pre.entry(owner, resource));
            }
        }
    }
    true
}

} // verus!
