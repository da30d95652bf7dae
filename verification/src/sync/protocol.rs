//! The blocking protocol: the primitives together with the scheduler.
//!
//! A primitive decides who holds a resource and who waits for it; the task
//! manager decides who runs.  The functions of this module take both steps
//! at once for the running task: a task that has to wait is put into the
//! wait queue and is blocked, and a task that is handed a resource is taken
//! out of the wait queue and is woken.  In this way a wait queue only ever
//! holds blocked tasks.  When the running task has been blocked, no task is
//! on the processor and the caller dispatches the next one.

use super::condvar::Condvar;
use super::mutex::{Acquisition, MutexBlocking, MutexSpin, SyncError};
use super::semaphore::Semaphore;
use crate::task::manager::TaskManager;
use crate::task::task::TaskStatus;
use vstd::prelude::*;

verus! {

/// Every task in `waiters` is a blocked task, and none is in it twice.
pub open spec fn all_blocked(manager: &TaskManager, waiters: Seq<usize>) -> bool {
    &&& waiters.no_duplicates()
    &&& forall|i: int|
        0 <= i < waiters.len() ==> manager.procs().contains_key(#[trigger] waiters[i])
            && manager.status(waiters[i]) == TaskStatus::Blocked
}

/// No task is both in `a` and in `b`.
pub open spec fn disjoint(a: Seq<usize>, b: Seq<usize>) -> bool {
    forall|i: int, j: int| 0 <= i < a.len() && 0 <= j < b.len() ==> a[i] != b[j]
}

/// Blocked tasks stay blocked when the running task leaves the processor.
proof fn lemma_blocked_after_leave(
    before: &TaskManager,
    after: &TaskManager,
    status: TaskStatus,
    now_us: usize,
    waiters: Seq<usize>,
)
    requires
        before.wf(),
        before.current() is Some,
        after.left_from(before, status, now_us),
        all_blocked(before, waiters),
    ensures
        all_blocked(after, waiters),
        !waiters.contains(before.current().unwrap()),
{
    let pid = before.current().unwrap();
    assert(before.procs().contains_key(pid));
    assert(before.status(pid) == TaskStatus::Running);
    assert forall|i: int| 0 <= i < waiters.len() implies after.procs().contains_key(
        #[trigger] waiters[i],
    ) && after.status(waiters[i]) == TaskStatus::Blocked by {
        assert(before.procs().contains_key(waiters[i]));
        assert(waiters[i] != pid);
        assert(after.procs().contains_key(waiters[i]) == before.procs().contains_key(waiters[i]));
    }
}

/// Blocked tasks other than the one that is woken stay blocked.
proof fn lemma_blocked_after_wake(
    before: &TaskManager,
    after: &TaskManager,
    pid: usize,
    waiters: Seq<usize>,
)
    requires
        after.woken_from(before, pid),
        all_blocked(before, waiters),
        !waiters.contains(pid),
    ensures
        all_blocked(after, waiters),
{
    assert forall|i: int| 0 <= i < waiters.len() implies after.procs().contains_key(
        #[trigger] waiters[i],
    ) && after.status(waiters[i]) == TaskStatus::Blocked by {
        assert(before.procs().contains_key(waiters[i]));
        assert(waiters.contains(waiters[i]));
        assert(after.procs().contains_key(waiters[i]) == before.procs().contains_key(waiters[i]));
    }
}

/// The running task asks for `mutex` at time `now_us`.
///
/// `Granted`: the mutex is the task's, which goes on.  `Blocked`: the task
/// waits at the end of the queue of the mutex and has left the processor.
pub fn mutex_lock(manager: &mut TaskManager, mutex: &mut MutexBlocking, now_us: usize) -> (r:
    Acquisition)
    requires
        old(manager).wf(),
        old(mutex).wf(),
        old(manager).kernel_time_due(now_us),
        old(manager).processor().user_timer_us is None,
        all_blocked(old(manager), old(mutex)@.waiters),
    ensures
        final(manager).wf(),
        final(mutex).wf(),
        final(mutex)@ == old(mutex)@.lock(old(manager).current().unwrap()),
        r == if old(mutex)@.owner is None {
            Acquisition::Granted
        } else {
            Acquisition::Blocked
        },
        r == Acquisition::Granted ==> final(manager).same_as(old(manager)),
        r == Acquisition::Blocked ==> final(manager).left_from(
            old(manager),
            TaskStatus::Blocked,
            now_us,
        ),
        all_blocked(final(manager), final(mutex)@.waiters),
{
    let task = match manager.current_task() {
        Some(task) => task,
        None => 0,
    };
    let r = mutex.lock(task);
    match r {
        Acquisition::Blocked => {
            manager.block_current(now_us);
            proof {
                lemma_blocked_after_leave(
                    old(manager),
                    manager,
                    TaskStatus::Blocked,
                    now_us,
                    old(mutex)@.waiters,
                );
                let waiters = mutex@.waiters;
                assert(waiters == old(mutex)@.waiters.push(task));
                assert forall|i: int| 0 <= i < waiters.len() implies manager.procs().contains_key(
                    #[trigger] waiters[i],
                ) && manager.status(waiters[i]) == TaskStatus::Blocked by {
                    if i < old(mutex)@.waiters.len() {
                        assert(waiters[i] == old(mutex)@.waiters[i]);
                    }
                }
            }
        },
        _ => {},
    }
    r
}

/// The running task lets go of `mutex`, which it must hold.  The mutex goes
/// to the task at the head of the queue, which is woken and returned, or
/// becomes free.  A task that does not hold the mutex changes nothing.
pub fn mutex_unlock(manager: &mut TaskManager, mutex: &mut MutexBlocking) -> (r: Result<
    Option<usize>,
    SyncError,
>)
    requires
        old(manager).wf(),
        old(mutex).wf(),
        old(manager).current() is Some,
        all_blocked(old(manager), old(mutex)@.waiters),
    ensures
        final(manager).wf(),
        final(mutex).wf(),
        all_blocked(final(manager), final(mutex)@.waiters),
        old(mutex)@.owner != old(manager).current() ==> {
            &&& r == Err::<Option<usize>, SyncError>(SyncError::NotOwner)
            &&& final(mutex)@ == old(mutex)@
            &&& final(manager).same_as(old(manager))
        },
        old(mutex)@.owner == old(manager).current() ==> {
            &&& r == Ok::<Option<usize>, SyncError>(final(mutex)@.owner)
            &&& final(mutex)@ == old(mutex)@.unlock()
            &&& match final(mutex)@.owner {
                Some(next) => final(manager).woken_from(old(manager), next),
                None => final(manager).same_as(old(manager)),
            }
        },
{
    let task = match manager.current_task() {
        Some(task) => task,
        None => 0,
    };
    let r = mutex.unlock(task);
    match r {
        Ok(Some(next)) => {
            proof {
                assert(old(mutex)@.waiters[0] == next);
                assert(old(manager).procs().contains_key(old(mutex)@.waiters[0]));
            }
            manager.wakeup_task(next);
            proof {
                let rest = mutex@.waiters;
                assert(rest == old(mutex)@.waiters.drop_first());
                assert(!rest.contains(next)) by {
                    if rest.contains(next) {
                        let i = choose|i: int| 0 <= i < rest.len() && rest[i] == next;
                        assert(old(mutex)@.waiters[i + 1] == old(mutex)@.waiters[0]);
                    }
                }
                assert(all_blocked(old(manager), rest)) by {
                    assert forall|i: int|
                        0 <= i < rest.len() implies old(manager).procs().contains_key(
                        #[trigger] rest[i],
                    ) && old(manager).status(rest[i]) == TaskStatus::Blocked by {
                        assert(rest[i] == old(mutex)@.waiters[i + 1]);
                    }
                }
                lemma_blocked_after_wake(old(manager), manager, next, rest);
            }
        },
        _ => {},
    }
    r
}

/// The running task asks for the spinning mutex `mutex` at time `now_us`.
///
/// `Granted`: the mutex is the task's, which goes on.  `Busy`: the mutex is
/// taken; the task has given up the processor, is ready, and asks again when
/// it runs next.
pub fn spin_lock(manager: &mut TaskManager, mutex: &mut MutexSpin, now_us: usize) -> (r:
    Acquisition)
    requires
        old(manager).wf(),
        old(manager).kernel_time_due(now_us),
        old(manager).processor().user_timer_us is None,
    ensures
        final(manager).wf(),
        old(mutex).owner() is None ==> {
            &&& r == Acquisition::Granted
            &&& final(mutex).owner() == old(manager).current()
            &&& final(manager).same_as(old(manager))
        },
        old(mutex).owner() is Some ==> {
            &&& r == Acquisition::Busy
            &&& final(mutex).owner() == old(mutex).owner()
            &&& final(manager).left_from(old(manager), TaskStatus::Ready, now_us)
        },
{
    let task = match manager.current_task() {
        Some(task) => task,
        None => 0,
    };
    let r = mutex.lock(task);
    match r {
        Acquisition::Busy => {
            manager.suspend_current(now_us);
        },
        _ => {},
    }
    r
}

/// The running task asks `semaphore` for a unit at time `now_us`.
///
/// `Granted`: the task has the unit and goes on.  `Blocked`: the task waits
/// at the end of the queue of the semaphore and has left the processor.
pub fn semaphore_down(manager: &mut TaskManager, semaphore: &mut Semaphore, now_us: usize) -> (r:
    Acquisition)
    requires
        old(manager).wf(),
        old(semaphore).wf(),
        old(semaphore)@.count > isize::MIN,
        old(manager).kernel_time_due(now_us),
        old(manager).processor().user_timer_us is None,
        all_blocked(old(manager), old(semaphore)@.waiters),
    ensures
        final(manager).wf(),
        final(semaphore).wf(),
        final(semaphore)@ == old(semaphore)@.down(old(manager).current().unwrap()),
        r == if old(semaphore)@.count > 0 {
            Acquisition::Granted
        } else {
            Acquisition::Blocked
        },
        r == Acquisition::Granted ==> final(manager).same_as(old(manager)),
        r == Acquisition::Blocked ==> final(manager).left_from(
            old(manager),
            TaskStatus::Blocked,
            now_us,
        ),
        all_blocked(final(manager), final(semaphore)@.waiters),
{
    let task = match manager.current_task() {
        Some(task) => task,
        None => 0,
    };
    let r = semaphore.down(task);
    match r {
        Acquisition::Blocked => {
            manager.block_current(now_us);
            proof {
                lemma_blocked_after_leave(
                    old(manager),
                    manager,
                    TaskStatus::Blocked,
                    now_us,
                    old(semaphore)@.waiters,
                );
                let waiters = semaphore@.waiters;
                assert(waiters == old(semaphore)@.waiters.push(task));
                assert forall|i: int| 0 <= i < waiters.len() implies manager.procs().contains_key(
                    #[trigger] waiters[i],
                ) && manager.status(waiters[i]) == TaskStatus::Blocked by {
                    if i < old(semaphore)@.waiters.len() {
                        assert(waiters[i] == old(semaphore)@.waiters[i]);
                    }
                }
            }
        },
        _ => {},
    }
    r
}

/// A unit is given back to `semaphore`.  If tasks wait, the one at the head
/// of the queue gets the unit, is woken and is returned.
pub fn semaphore_up(manager: &mut TaskManager, semaphore: &mut Semaphore) -> (woken: Option<usize>)
    requires
        old(manager).wf(),
        old(semaphore).wf(),
        old(semaphore)@.count < isize::MAX,
        all_blocked(old(manager), old(semaphore)@.waiters),
    ensures
        final(manager).wf(),
        final(semaphore).wf(),
        final(semaphore)@ == old(semaphore)@.up(),
        all_blocked(final(manager), final(semaphore)@.waiters),
        old(semaphore)@.waiters.len() == 0 ==> woken is None && final(manager).same_as(old(manager)),
        old(semaphore)@.waiters.len() > 0 ==> woken == Some(old(semaphore)@.waiters[0]) && final(manager).woken_from(old(manager), old(semaphore)@.waiters[0]),
{
    let woken = semaphore.up();
    match woken {
        Some(next) => {
            proof {
                assert(old(manager).procs().contains_key(old(semaphore)@.waiters[0]));
            }
            manager.wakeup_task(next);
            proof {
                let rest = semaphore@.waiters;
                assert(rest == old(semaphore)@.waiters.drop_first());
                assert(!rest.contains(next)) by {
                    if rest.contains(next) {
                        let i = choose|i: int| 0 <= i < rest.len() && rest[i] == next;
                        assert(old(semaphore)@.waiters[i + 1] == old(semaphore)@.waiters[0]);
                    }
                }
                assert(all_blocked(old(manager), rest)) by {
                    assert forall|i: int|
                        0 <= i < rest.len() implies old(manager).procs().contains_key(
                        #[trigger] rest[i],
                    ) && old(manager).status(rest[i]) == TaskStatus::Blocked by {
                        assert(rest[i] == old(semaphore)@.waiters[i + 1]);
                    }
                }
                lemma_blocked_after_wake(old(manager), manager, next, rest);
            }
        },
        None => {},
    }
    woken
}

/// The running task, which must hold `mutex`, lets go of it and waits on
/// `condvar` at time `now_us`.  The mutex goes to the task at the head of
/// its queue, which is woken and returned, or becomes free; the running task
/// has left the processor.  A task that does not hold the mutex changes
/// nothing.
pub fn condvar_wait(
    manager: &mut TaskManager,
    condvar: &mut Condvar,
    mutex: &mut MutexBlocking,
    now_us: usize,
) -> (r: Result<Option<usize>, SyncError>)
    requires
        old(manager).wf(),
        old(mutex).wf(),
        old(manager).kernel_time_due(now_us),
        old(manager).processor().user_timer_us is None,
        all_blocked(old(manager), old(mutex)@.waiters),
        all_blocked(old(manager), old(condvar)@),
        disjoint(old(condvar)@, old(mutex)@.waiters),
    ensures
        final(manager).wf(),
        final(mutex).wf(),
        all_blocked(final(manager), final(mutex)@.waiters),
        all_blocked(final(manager), final(condvar)@),
        disjoint(final(condvar)@, final(mutex)@.waiters),
        old(mutex)@.owner != old(manager).current() ==> {
            &&& r == Err::<Option<usize>, SyncError>(SyncError::NotOwner)
            &&& final(mutex)@ == old(mutex)@
            &&& final(condvar)@ == old(condvar)@
            &&& final(manager).same_as(old(manager))
        },
        old(mutex)@.owner == old(manager).current() ==> {
            &&& r == Ok::<Option<usize>, SyncError>(final(mutex)@.owner)
            &&& final(mutex)@ == old(mutex)@.unlock()
            &&& final(condvar)@ == old(condvar)@.push(old(manager).current().unwrap())
            &&& exists|mid: TaskManager|
                {
                    &&& mid.wf()
                    &&& match final(mutex)@.owner {
                        Some(next) => mid.woken_from(old(manager), next),
                        None => mid.same_as(old(manager)),
                    }
                    &&& #[trigger] final(manager).left_from(&mid, TaskStatus::Blocked, now_us)
                }
        },
{
    let task = match manager.current_task() {
        Some(task) => task,
        None => 0,
    };
    proof {
        assert(old(manager).procs().contains_key(task));
        assert(old(manager).status(task) == TaskStatus::Running);
    }
    let r = condvar.wait(task, mutex);
    match r {
        Ok(next) => {
            match next {
                Some(next) => {
                    proof {
                        assert(old(mutex)@.waiters[0] == next);
                        assert(old(manager).procs().contains_key(old(mutex)@.waiters[0]));
                    }
                    manager.wakeup_task(next);
                    proof {
                        let rest = mutex@.waiters;
                        assert(rest == old(mutex)@.waiters.drop_first());
                        assert(!rest.contains(next)) by {
                            if rest.contains(next) {
                                let i = choose|i: int| 0 <= i < rest.len() && rest[i] == next;
                                assert(old(mutex)@.waiters[i + 1] == old(mutex)@.waiters[0]);
                            }
                        }
                        assert(all_blocked(old(manager), rest)) by {
                            assert forall|i: int|
                                0 <= i < rest.len() implies old(manager).procs().contains_key(
                                #[trigger] rest[i],
                            ) && old(manager).status(rest[i]) == TaskStatus::Blocked by {
                                assert(rest[i] == old(mutex)@.waiters[i + 1]);
                            }
                        }
                        lemma_blocked_after_wake(old(manager), manager, next, rest);
                        assert(!old(condvar)@.contains(next)) by {
                            if old(condvar)@.contains(next) {
                                let i = choose|i: int|
                                    0 <= i < old(condvar)@.len() && old(condvar)@[i] == next;
                                assert(old(condvar)@[i] != old(mutex)@.waiters[0]);
                            }
                        }
                        lemma_blocked_after_wake(old(manager), manager, next, old(condvar)@);
                    }
                },
                None => {},
            }
            let ghost mid = *manager;
            proof {
                assert(mid.current() == Some(task));
                assert(mid.kernel_time_due(now_us)) by {
                    assert(mid.procs().contains_key(task));
                    assert(mid.procs()[task] == old(manager).procs()[task]) by {
                        if next is Some {
                            assert(next.unwrap() != task);
                        }
                    }
                }
            }
            manager.block_current(now_us);
            proof {
                let rest = mutex@.waiters;
                lemma_blocked_after_leave(&mid, manager, TaskStatus::Blocked, now_us, rest);
                lemma_blocked_after_leave(
                    &mid,
                    manager,
                    TaskStatus::Blocked,
                    now_us,
                    old(condvar)@,
                );
                let waiting = condvar@;
                assert(waiting == old(condvar)@.push(task));
                assert forall|i: int| 0 <= i < waiting.len() implies manager.procs().contains_key(
                    #[trigger] waiting[i],
                ) && manager.status(waiting[i]) == TaskStatus::Blocked by {
                    if i < old(condvar)@.len() {
                        assert(waiting[i] == old(condvar)@[i]);
                    }
                }
                assert(disjoint(waiting, rest)) by {
                    assert forall|i: int, j: int|
                        0 <= i < waiting.len() && 0 <= j < rest.len() implies waiting[i]
                        != rest[j] by {
                        if i < old(condvar)@.len() {
                            assert(waiting[i] == old(condvar)@[i]);
                            if next is Some {
                                assert(rest[j] == old(mutex)@.waiters[j + 1]);
                            }
                        } else {
                            assert(rest.contains(rest[j]));
                        }
                    }
                }
                assert(manager.left_from(&mid, TaskStatus::Blocked, now_us));
            }
        },
        Err(_) => {},
    }
    r
}

/// The task that has waited longest on `condvar`, if any, is notified and
/// contends for `mutex` again.  It is returned with `Granted` when the mutex
/// was free: the mutex is its own and it is woken.  It is returned with
/// `Blocked` when the mutex is held: it now waits for the mutex, blocked as
/// before, and will own the mutex when it is woken.
pub fn condvar_signal(manager: &mut TaskManager, condvar: &mut Condvar, mutex: &mut MutexBlocking) -> (r:
    Option<(usize, Acquisition)>)
    requires
        old(manager).wf(),
        old(mutex).wf(),
        all_blocked(old(manager), old(mutex)@.waiters),
        all_blocked(old(manager), old(condvar)@),
        disjoint(old(condvar)@, old(mutex)@.waiters),
    ensures
        final(manager).wf(),
        final(mutex).wf(),
        all_blocked(final(manager), final(mutex)@.waiters),
        all_blocked(final(manager), final(condvar)@),
        disjoint(final(condvar)@, final(mutex)@.waiters),
        old(condvar)@.len() == 0 ==> {
            &&& r is None
            &&& final(condvar)@ == old(condvar)@
            &&& final(mutex)@ == old(mutex)@
            &&& final(manager).same_as(old(manager))
        },
        old(condvar)@.len() > 0 ==> {
            let task = old(condvar)@[0];
            &&& final(condvar)@ == old(condvar)@.drop_first()
            &&& final(mutex)@ == old(mutex)@.lock(task)
            &&& if old(mutex)@.owner is None {
                &&& r == Some((task, Acquisition::Granted))
                &&& final(mutex)@.owner == Some(task)
                &&& final(manager).woken_from(old(manager), task)
            } else {
                &&& r == Some((task, Acquisition::Blocked))
                &&& final(mutex)@.waiters.contains(task)
                &&& final(manager).same_as(old(manager))
            }
        },
{
    let r = condvar.notify_one(mutex);
    match r {
        Some((task, outcome)) => {
            proof {
                assert(old(condvar)@[0] == task);
                assert(old(manager).procs().contains_key(old(condvar)@[0]));
                let rest = condvar@;
                assert(rest == old(condvar)@.drop_first());
                assert(!rest.contains(task)) by {
                    if rest.contains(task) {
                        let i = choose|i: int| 0 <= i < rest.len() && rest[i] == task;
                        assert(old(condvar)@[i + 1] == old(condvar)@[0]);
                    }
                }
                assert(all_blocked(old(manager), rest)) by {
                    assert forall|i: int|
                        0 <= i < rest.len() implies old(manager).procs().contains_key(
                        #[trigger] rest[i],
                    ) && old(manager).status(rest[i]) == TaskStatus::Blocked by {
                        assert(rest[i] == old(condvar)@[i + 1]);
                    }
                }
                assert(!old(mutex)@.waiters.contains(task)) by {
                    if old(mutex)@.waiters.contains(task) {
                        let j = choose|j: int|
                            0 <= j < old(mutex)@.waiters.len() && old(mutex)@.waiters[j] == task;
                        assert(old(condvar)@[0] != old(mutex)@.waiters[j]);
                    }
                }
            }
            match outcome {
                Acquisition::Granted => {
                    manager.wakeup_task(task);
                    proof {
                        lemma_blocked_after_wake(old(manager), manager, task, condvar@);
                        lemma_blocked_after_wake(old(manager), manager, task, mutex@.waiters);
                        assert(disjoint(condvar@, mutex@.waiters));
                    }
                },
                _ => {
                    proof {
                        let queue = mutex@.waiters;
                        assert(queue == old(mutex)@.waiters.push(task));
                        assert(queue[old(mutex)@.waiters.len() as int] == task);
                        assert forall|i: int|
                            0 <= i < queue.len() implies manager.procs().contains_key(
                            #[trigger] queue[i],
                        ) && manager.status(queue[i]) == TaskStatus::Blocked by {
                            if i < old(mutex)@.waiters.len() {
                                assert(queue[i] == old(mutex)@.waiters[i]);
                            }
                        }
                        assert(disjoint(condvar@, queue)) by {
                            assert forall|i: int, j: int|
                                0 <= i < condvar@.len() && 0 <= j < queue.len() implies condvar@[i]
                                != queue[j] by {
                                assert(condvar@[i] == old(condvar)@[i + 1]);
                                if j < old(mutex)@.waiters.len() {
                                    assert(queue[j] == old(mutex)@.waiters[j]);
                                } else {
                                    assert(condvar@.contains(condvar@[i]));
                                }
                            }
                        }
                    }
                },
            }
        },
        None => {},
    }
    r
}


/// All tasks that wait on `condvar` are notified and contend for `mutex`
/// again, in the order in which they waited.  The first of them finds a free
/// mutex: the mutex is its own, and it is woken and returned.  The others,
/// or all of them when the mutex is held, now wait for the mutex, blocked as
/// before, and will own the mutex when they are woken.
pub fn condvar_broadcast(
    manager: &mut TaskManager,
    condvar: &mut Condvar,
    mutex: &mut MutexBlocking,
) -> (granted: Option<usize>)
    requires
        old(manager).wf(),
        old(mutex).wf(),
        all_blocked(old(manager), old(mutex)@.waiters),
        all_blocked(old(manager), old(condvar)@),
        disjoint(old(condvar)@, old(mutex)@.waiters),
    ensures
        final(manager).wf(),
        final(mutex).wf(),
        all_blocked(final(manager), final(mutex)@.waiters),
        final(condvar)@.len() == 0,
        final(mutex)@ == old(mutex)@.lock_all(old(condvar)@),
        granted == if old(mutex)@.owner is None && old(condvar)@.len() > 0 {
            Some(old(condvar)@[0])
        } else {
            None
        },
        match granted {
            Some(task) => final(mutex)@.owner == Some(task) && final(manager).woken_from(
                old(manager),
                task,
            ),
            None => final(manager).same_as(old(manager)),
        },
{
    let granted = condvar.notify_all(mutex);
    proof {
        old(mutex)@.lemma_lock_all(old(condvar)@);
        let waiting = old(condvar)@;
        let queue = mutex@.waiters;
        // Where the tasks that wait for the mutex now waited before.
        assert forall|i: int| 0 <= i < queue.len() implies old(manager).procs().contains_key(
            #[trigger] queue[i],
        ) && old(manager).status(queue[i]) == TaskStatus::Blocked && (granted matches Some(g)
            ==> queue[i] != g) by {
            let before = old(mutex)@.waiters.len();
            if i < before {
                assert(queue[i] == old(mutex)@.waiters[i]);
                if granted is Some {
                    assert(waiting[0] != old(mutex)@.waiters[i]);
                }
            } else if granted is Some {
                assert(queue[i] == waiting[i - before + 1]);
                assert(waiting[0] != waiting[i - before + 1]);
            } else {
                assert(queue[i] == waiting[i - before]);
            }
        }
        assert(queue.no_duplicates()) by {
            assert forall|i: int, j: int| 0 <= i < j < queue.len() implies queue[i] != queue[j] by {
                let before = old(mutex)@.waiters.len();
                let shift = if granted is Some {
                    1 - before
                } else {
                    -before
                };
                if j < before {
                    assert(queue[i] == old(mutex)@.waiters[i]);
                    assert(queue[j] == old(mutex)@.waiters[j]);
                } else if i < before {
                    assert(queue[i] == old(mutex)@.waiters[i]);
                    assert(queue[j] == waiting[j + shift]);
                    assert(waiting[j + shift] != old(mutex)@.waiters[i]);
                } else {
                    assert(queue[i] == waiting[i + shift]);
                    assert(queue[j] == waiting[j + shift]);
                }
            }
        }
        assert(all_blocked(old(manager), queue));
    }
    match granted {
        Some(task) => {
            proof {
                assert(old(manager).procs().contains_key(old(condvar)@[0]));
                assert(!mutex@.waiters.contains(task)) by {
                    if mutex@.waiters.contains(task) {
                        let i = choose|i: int|
                            0 <= i < mutex@.waiters.len() && mutex@.waiters[i] == task;
                        assert(mutex@.waiters[i] != task);
                    }
                }
            }
            manager.wakeup_task(task);
            proof {
                lemma_blocked_after_wake(old(manager), manager, task, mutex@.waiters);
            }
        },
        None => {},
    }
    granted
}

/// Blocked tasks other than the one that is terminated stay blocked.
proof fn lemma_blocked_after_bury(
    before: &TaskManager,
    after: &TaskManager,
    pid: usize,
    exit_code: i32,
    waiters: Seq<usize>,
)
    requires
        before.wf(),
        before.procs().contains_key(pid),
        after.buried_from(before, pid, exit_code),
        all_blocked(before, waiters),
        !waiters.contains(pid),
    ensures
        all_blocked(after, waiters),
{
    assert forall|i: int| 0 <= i < waiters.len() implies after.procs().contains_key(
        #[trigger] waiters[i],
    ) && after.status(waiters[i]) == TaskStatus::Blocked by {
        let w = waiters[i];
        assert(before.procs().contains_key(w));
        assert(waiters.contains(w));
        if let Some(root) = before.adopter(pid) {
            if w != root {
                assert(after.procs().contains_key(w) == before.procs().contains_key(w));
            }
        } else {
            assert(after.procs().contains_key(w) == before.procs().contains_key(w));
        }
    }
}

/// The queue `rest` is the queue `waiters` without the task at place `at`:
/// it holds the same tasks but for that one, each once.
proof fn lemma_rest_of_queue(waiters: Seq<usize>, at: int)
    requires
        waiters.no_duplicates(),
        0 <= at < waiters.len(),
    ensures
        waiters.remove(at).no_duplicates(),
        !waiters.remove(at).contains(waiters[at]),
        forall|i: int|
            0 <= i < waiters.remove(at).len() ==> waiters.contains(#[trigger] waiters.remove(at)[i]),
{
    let rest = waiters.remove(at);
    assert forall|i: int| 0 <= i < rest.len() implies waiters.contains(#[trigger] rest[i])
        && rest[i] != waiters[at] by {
        if i < at {
            assert(rest[i] == waiters[i]);
        } else {
            assert(rest[i] == waiters[i + 1]);
        }
    }
    assert(!rest.contains(waiters[at])) by {
        if rest.contains(waiters[at]) {
            let i = choose|i: int| 0 <= i < rest.len() && rest[i] == waiters[at];
            assert(rest[i] != waiters[at]);
        }
    }
    assert forall|i: int, j: int| 0 <= i < j < rest.len() implies rest[i] != rest[j] by {
        let a = if i < at {
            i
        } else {
            i + 1
        };
        let b = if j < at {
            j
        } else {
            j + 1
        };
        assert(rest[i] == waiters[a] && rest[j] == waiters[b]);
    }
}

/// The task of process `pid` is terminated with `exit_code` while it waits
/// for `mutex`: it leaves the queue, in which the others keep their order,
/// and its process becomes a zombie.  Returns whether the task was waiting;
/// if it was not, nothing changes.
pub fn mutex_cancel(
    manager: &mut TaskManager,
    mutex: &mut MutexBlocking,
    pid: usize,
    exit_code: i32,
) -> (was_waiting: bool)
    requires
        old(manager).wf(),
        old(mutex).wf(),
        all_blocked(old(manager), old(mutex)@.waiters),
    ensures
        final(manager).wf(),
        final(mutex).wf(),
        all_blocked(final(manager), final(mutex)@.waiters),
        was_waiting == old(mutex)@.waiters.contains(pid),
        final(mutex)@.owner == old(mutex)@.owner,
        was_waiting ==> final(mutex)@.waiters == old(mutex)@.waiters.remove(
            old(mutex)@.waiters.index_of(pid),
        ) && final(manager).buried_from(old(manager), pid, exit_code),
        !was_waiting ==> final(mutex)@ == old(mutex)@ && final(manager).same_as(old(manager)),
{
    if !mutex.cancel(pid) {
        return false;
    }
    proof {
        let waiters = old(mutex)@.waiters;
        let at = waiters.index_of(pid);
        assert(0 <= at < waiters.len() && waiters[at] == pid);
        assert(old(manager).procs().contains_key(waiters[at]));
        lemma_rest_of_queue(waiters, at);
        let i = choose|i: int| #[trigger]
            crate::sync::wait_queue::first_at(waiters, pid, i) && mutex@.waiters == waiters.remove(i);
        assert(i == at);
    }
    manager.terminate(pid, exit_code);
    proof {
        let waiters = old(mutex)@.waiters;
        let at = waiters.index_of(pid);
        let rest = waiters.remove(at);
        assert(all_blocked(old(manager), rest)) by {
            assert forall|i: int| 0 <= i < rest.len() implies old(manager).procs().contains_key(
                #[trigger] rest[i],
            ) && old(manager).status(rest[i]) == TaskStatus::Blocked by {
                assert(waiters.contains(rest[i]));
                let k = choose|k: int| 0 <= k < waiters.len() && waiters[k] == rest[i];
                assert(old(manager).procs().contains_key(waiters[k]));
            }
        }
        lemma_blocked_after_bury(old(manager), manager, pid, exit_code, rest);
    }
    true
}

/// The task of process `pid` is terminated with `exit_code` while it waits
/// for a unit of `semaphore`: it leaves the queue, in which the others keep
/// their order, the unit it waited for counts as given back, and its process
/// becomes a zombie.  Returns whether the task was waiting; if it was not,
/// nothing changes.
pub fn semaphore_cancel(
    manager: &mut TaskManager,
    semaphore: &mut Semaphore,
    pid: usize,
    exit_code: i32,
) -> (was_waiting: bool)
    requires
        old(manager).wf(),
        old(semaphore).wf(),
        all_blocked(old(manager), old(semaphore)@.waiters),
    ensures
        final(manager).wf(),
        final(semaphore).wf(),
        all_blocked(final(manager), final(semaphore)@.waiters),
        was_waiting == old(semaphore)@.waiters.contains(pid),
        was_waiting ==> {
            &&& final(semaphore)@.count == old(semaphore)@.count + 1
            &&& final(semaphore)@.waiters == old(semaphore)@.waiters.remove(
                old(semaphore)@.waiters.index_of(pid),
            )
            &&& final(manager).buried_from(old(manager), pid, exit_code)
        },
        !was_waiting ==> final(semaphore)@ == old(semaphore)@ && final(manager).same_as(
            old(manager),
        ),
{
    if !semaphore.cancel(pid) {
        return false;
    }
    proof {
        let waiters = old(semaphore)@.waiters;
        let at = waiters.index_of(pid);
        assert(0 <= at < waiters.len() && waiters[at] == pid);
        assert(old(manager).procs().contains_key(waiters[at]));
        lemma_rest_of_queue(waiters, at);
        let i = choose|i: int| #[trigger]
            crate::sync::wait_queue::first_at(waiters, pid, i) && semaphore@.waiters
                == waiters.remove(i);
        assert(i == at);
    }
    manager.terminate(pid, exit_code);
    proof {
        let waiters = old(semaphore)@.waiters;
        let at = waiters.index_of(pid);
        let rest = waiters.remove(at);
        assert(all_blocked(old(manager), rest)) by {
            assert forall|i: int| 0 <= i < rest.len() implies old(manager).procs().contains_key(
                #[trigger] rest[i],
            ) && old(manager).status(rest[i]) == TaskStatus::Blocked by {
                assert(waiters.contains(rest[i]));
                let k = choose|k: int| 0 <= k < waiters.len() && waiters[k] == rest[i];
                assert(old(manager).procs().contains_key(waiters[k]));
            }
        }
        lemma_blocked_after_bury(old(manager), manager, pid, exit_code, rest);
    }
    true
}

/// The task of process `pid` is terminated with `exit_code` while it waits
/// on `condvar`: it leaves the queue, in which the others keep their order,
/// and its process becomes a zombie.  Returns whether the task was waiting;
/// if it was not, nothing changes.
pub fn condvar_cancel(
    manager: &mut TaskManager,
    condvar: &mut Condvar,
    pid: usize,
    exit_code: i32,
) -> (was_waiting: bool)
    requires
        old(manager).wf(),
        all_blocked(old(manager), old(condvar)@),
    ensures
        final(manager).wf(),
        all_blocked(final(manager), final(condvar)@),
        was_waiting == old(condvar)@.contains(pid),
        was_waiting ==> final(condvar)@ == old(condvar)@.remove(old(condvar)@.index_of(pid))
            && final(manager).buried_from(old(manager), pid, exit_code),
        !was_waiting ==> final(condvar)@ == old(condvar)@ && final(manager).same_as(old(manager)),
{
    if !condvar.cancel(pid) {
        return false;
    }
    proof {
        let waiters = old(condvar)@;
        let at = waiters.index_of(pid);
        assert(0 <= at < waiters.len() && waiters[at] == pid);
        assert(old(manager).procs().contains_key(waiters[at]));
        lemma_rest_of_queue(waiters, at);
        let i = choose|i: int| #[trigger]
            crate::sync::wait_queue::first_at(waiters, pid, i) && condvar@ == waiters.remove(i);
        assert(i == at);
    }
    manager.terminate(pid, exit_code);
    proof {
        let waiters = old(condvar)@;
        let at = waiters.index_of(pid);
        let rest = waiters.remove(at);
        assert(all_blocked(old(manager), rest)) by {
            assert forall|i: int| 0 <= i < rest.len() implies old(manager).procs().contains_key(
                #[trigger] rest[i],
            ) && old(manager).status(rest[i]) == TaskStatus::Blocked by {
                assert(waiters.contains(rest[i]));
                let k = choose|k: int| 0 <= k < waiters.len() && waiters[k] == rest[i];
                assert(old(manager).procs().contains_key(waiters[k]));
            }
        }
        lemma_blocked_after_bury(old(manager), manager, pid, exit_code, rest);
    }
    true
}

} // verus!
