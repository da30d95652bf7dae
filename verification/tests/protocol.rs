use oskernel::sync::condvar::Condvar;
use oskernel::sync::deadlock_avoidance::{BankersAlgorithm, RequestResult};
use oskernel::sync::guarded::{guarded_cancel, guarded_lock, guarded_new, guarded_unlock};
use oskernel::sync::mutex::{Acquisition, MutexBlocking, MutexSpin, SyncError};
use oskernel::sync::protocol::{
    condvar_broadcast, condvar_cancel, condvar_signal, condvar_wait, mutex_cancel, mutex_lock,
    mutex_unlock, semaphore_cancel, semaphore_down, semaphore_up, spin_lock,
};
use oskernel::sync::semaphore::Semaphore;
use oskernel::syscall::process::sys_fork;
use oskernel::task::context::TaskContext;
use oskernel::task::manager::TaskManager;
use oskernel::task::task::{ProgramImage, TaskStatus};

fn image() -> ProgramImage {
    ProgramImage { token: 1, entry_point: 0x1000, user_sp: 0x8000, heap_bottom: 0x4000 }
}

fn cx() -> TaskContext {
    TaskContext::goto(0x40, 0x80)
}

/// The running task traps into the kernel at `now`, if it is not there.
fn trap(m: &mut TaskManager, now: usize) {
    if m.processor_state().user_timer_us.is_some() {
        m.user_timer_stop(now);
    }
    if m.processor_state().kernel_timer_us.is_none() {
        m.kernel_timer_start(now);
    }
}

/// Dispatches the next task at `now` and lets it trap into the kernel.
fn dispatch(m: &mut TaskManager, now: usize) -> Option<usize> {
    let next = m.run_tasks(now);
    if next.is_some() {
        trap(m, now);
    }
    next
}

/// A manager with `n` processes, of which process 0 runs and is in the kernel.
fn with_tasks(n: usize) -> TaskManager {
    let mut m = TaskManager::new();
    m.spawn(&image(), cx(), 0);
    assert_eq!(dispatch(&mut m, 1), Some(0));
    for i in 1..n {
        assert_eq!(sys_fork(&mut m, i, cx()), i as isize);
    }
    m
}

/// Makes task `pid` the running task, by letting the others yield.
fn run(m: &mut TaskManager, pid: usize, now: &mut usize) {
    if m.current_task().is_none() {
        *now += 1;
        assert!(dispatch(m, *now).is_some());
    }
    while m.current_task() != Some(pid) {
        *now += 1;
        m.suspend_current(*now);
        assert!(dispatch(m, *now).is_some());
    }
}

#[test]
fn condition_variable_with_scheduler() {
    const A: usize = 0;
    const B: usize = 1;
    let mut m = with_tasks(2);
    let mut mutex = MutexBlocking::new();
    let mut condvar = Condvar::new();
    let mut now = 10;
    // A takes M and waits on the condition: M is free and A is blocked.
    assert_eq!(mutex_lock(&mut m, &mut mutex, now), Acquisition::Granted);
    assert_eq!(mutex.holder(), Some(A));
    assert_eq!(condvar_wait(&mut m, &mut condvar, &mut mutex, now), Ok(None));
    assert_eq!(m.current_task(), None);
    assert_eq!(m.process(A).unwrap().task.task_status, TaskStatus::Blocked);
    assert_eq!(mutex.holder(), None);
    // B runs, takes M and notifies: A now waits for M and is still blocked.
    assert_eq!(dispatch(&mut m, now), Some(B));
    now += 1;
    assert_eq!(mutex_lock(&mut m, &mut mutex, now), Acquisition::Granted);
    assert_eq!(condvar_signal(&mut m, &mut condvar, &mut mutex), Some((A, Acquisition::Blocked)));
    assert_eq!(m.process(A).unwrap().task.task_status, TaskStatus::Blocked);
    assert_eq!(m.ready_count(), 0);
    assert_eq!(condvar_signal(&mut m, &mut condvar, &mut mutex), None);
    // B lets go of M: A owns M and is ready, and so returns from its wait
    // holding M.
    assert_eq!(mutex_unlock(&mut m, &mut mutex), Ok(Some(A)));
    assert_eq!(mutex.holder(), Some(A));
    assert_eq!(m.process(A).unwrap().task.task_status, TaskStatus::Ready);
    run(&mut m, A, &mut now);
    assert_eq!(mutex.holder(), m.current_task());
    assert_eq!(mutex_unlock(&mut m, &mut mutex), Ok(None));
}

#[test]
fn condition_variable_wait_without_the_mutex() {
    let mut m = with_tasks(2);
    let mut mutex = MutexBlocking::new();
    let mut condvar = Condvar::new();
    assert_eq!(condvar_wait(&mut m, &mut condvar, &mut mutex, 5), Err(SyncError::NotOwner));
    assert_eq!(m.current_task(), Some(0));
    assert_eq!(mutex_unlock(&mut m, &mut mutex), Err(SyncError::NotOwner));
    // A notified task finds the mutex free and is woken owning it.
    assert_eq!(mutex_lock(&mut m, &mut mutex, 5), Acquisition::Granted);
    assert_eq!(condvar_wait(&mut m, &mut condvar, &mut mutex, 6), Ok(None));
    assert_eq!(dispatch(&mut m, 7), Some(1));
    assert_eq!(condvar_signal(&mut m, &mut condvar, &mut mutex), Some((0, Acquisition::Granted)));
    assert_eq!(mutex.holder(), Some(0));
    assert_eq!(m.process(0).unwrap().task.task_status, TaskStatus::Ready);
}

#[test]
fn mutex_blocks_and_wakes_in_order() {
    let mut m = with_tasks(4);
    let mut mutex = MutexBlocking::new();
    let mut now = 10;
    assert_eq!(mutex_lock(&mut m, &mut mutex, now), Acquisition::Granted);
    // Tasks 2, 3 and 1 ask for the mutex, in this order, and block.
    for pid in [2usize, 3, 1] {
        run(&mut m, pid, &mut now);
        now += 1;
        assert_eq!(mutex_lock(&mut m, &mut mutex, now), Acquisition::Blocked);
        assert_eq!(m.current_task(), None);
        assert_eq!(m.process(pid).unwrap().task.task_status, TaskStatus::Blocked);
    }
    assert_eq!(mutex.waiting(), 3);
    // Only task 0 is left to run.  Each release wakes the oldest waiter.
    assert_eq!(dispatch(&mut m, now), Some(0));
    let mut owner = 0;
    for pid in [2usize, 3, 1] {
        run(&mut m, owner, &mut now);
        assert_eq!(mutex_unlock(&mut m, &mut mutex), Ok(Some(pid)));
        assert_eq!(m.process(pid).unwrap().task.task_status, TaskStatus::Ready);
        assert_eq!(mutex.holder(), Some(pid));
        owner = pid;
    }
    run(&mut m, owner, &mut now);
    assert_eq!(mutex_unlock(&mut m, &mut mutex), Ok(None));
    assert_eq!(mutex.holder(), None);
}

#[test]
fn semaphore_blocks_and_wakes() {
    let mut m = with_tasks(3);
    let mut sem = Semaphore::new(1);
    let mut now = 10;
    assert_eq!(semaphore_down(&mut m, &mut sem, now), Acquisition::Granted);
    run(&mut m, 1, &mut now);
    now += 1;
    assert_eq!(semaphore_down(&mut m, &mut sem, now), Acquisition::Blocked);
    assert_eq!(m.process(1).unwrap().task.task_status, TaskStatus::Blocked);
    run(&mut m, 2, &mut now);
    now += 1;
    assert_eq!(semaphore_down(&mut m, &mut sem, now), Acquisition::Blocked);
    assert_eq!(sem.count(), -2);
    assert_eq!(dispatch(&mut m, now), Some(0));
    assert_eq!(semaphore_up(&mut m, &mut sem), Some(1));
    assert_eq!(m.process(1).unwrap().task.task_status, TaskStatus::Ready);
    assert_eq!(m.process(2).unwrap().task.task_status, TaskStatus::Blocked);
    assert_eq!(semaphore_up(&mut m, &mut sem), Some(2));
    assert_eq!(semaphore_up(&mut m, &mut sem), None);
    assert_eq!(sem.count(), 1);
    assert_eq!(m.ready_count(), 2);
}

#[test]
fn spin_mutex_yields_when_busy() {
    let mut m = with_tasks(2);
    let mut mutex = MutexSpin::new();
    let mut now = 10;
    assert_eq!(spin_lock(&mut m, &mut mutex, now), Acquisition::Granted);
    assert_eq!(m.current_task(), Some(0));
    run(&mut m, 1, &mut now);
    now += 1;
    assert_eq!(spin_lock(&mut m, &mut mutex, now), Acquisition::Busy);
    assert_eq!(m.current_task(), None);
    assert_eq!(m.process(1).unwrap().task.task_status, TaskStatus::Ready);
    assert_eq!(m.ready_count(), 2);
    run(&mut m, 0, &mut now);
    assert_eq!(mutex.unlock(0), Ok(()));
    run(&mut m, 1, &mut now);
    now += 1;
    assert_eq!(spin_lock(&mut m, &mut mutex, now), Acquisition::Granted);
    assert_eq!(mutex.holder(), Some(1));
}

#[test]
fn guarded_mutexes_refuse_the_deadlock() {
    const A: usize = 0;
    const B: usize = 1;
    let mut m = with_tasks(2);
    let mut banker = BankersAlgorithm::new();
    let mut m1 = guarded_new(&mut banker, 1);
    let mut m2 = guarded_new(&mut banker, 2);
    let mut now = 10;
    // A takes mutex 1, B takes mutex 2.
    assert_eq!(guarded_lock(&mut m, &mut banker, &mut m1, 1, now), Ok(Acquisition::Granted));
    run(&mut m, B, &mut now);
    now += 1;
    assert_eq!(guarded_lock(&mut m, &mut banker, &mut m2, 2, now), Ok(Acquisition::Granted));
    assert_eq!(banker.allocation(A, 1), 1);
    assert_eq!(banker.allocation(B, 2), 1);
    assert_eq!(banker.available(1), 0);
    // A asks for mutex 2 and waits: B can still finish.
    run(&mut m, A, &mut now);
    now += 1;
    assert_eq!(guarded_lock(&mut m, &mut banker, &mut m2, 2, now), Ok(Acquisition::Blocked));
    assert_eq!(m.process(A).unwrap().task.task_status, TaskStatus::Blocked);
    assert_eq!(banker.need(A, 2), 1);
    // B asks for mutex 1 and is refused before it waits.
    assert_eq!(dispatch(&mut m, now), Some(B));
    now += 1;
    assert_eq!(
        guarded_lock(&mut m, &mut banker, &mut m1, 1, now),
        Err(RequestResult::Deadlock)
    );
    assert_eq!(m.current_task(), Some(B));
    assert_eq!(m1.waiting(), 0);
    assert_eq!(banker.need(B, 1), 0);
    // B lets go of mutex 2, which goes to A with its unit.
    assert_eq!(guarded_unlock(&mut m, &mut banker, &mut m2, 2), Ok(Some(A)));
    assert_eq!(banker.allocation(B, 2), 0);
    assert_eq!(banker.allocation(A, 2), 1);
    assert_eq!(banker.need(A, 2), 0);
    assert_eq!(banker.available(2), 0);
    assert_eq!(banker.capacity(2), 1);
    assert_eq!(m.process(A).unwrap().task.task_status, TaskStatus::Ready);
    // Now B may ask for mutex 1 and wait for it.
    assert_eq!(guarded_lock(&mut m, &mut banker, &mut m1, 1, now), Ok(Acquisition::Blocked));
    assert_eq!(dispatch(&mut m, now), Some(A));
    assert_eq!(guarded_unlock(&mut m, &mut banker, &mut m2, 2), Ok(None));
    assert_eq!(banker.available(2), 1);
    assert_eq!(guarded_unlock(&mut m, &mut banker, &mut m1, 1), Ok(Some(B)));
    assert_eq!(guarded_unlock(&mut m, &mut banker, &mut m1, 1), Err(SyncError::NotOwner));
    assert_eq!(banker.allocation(B, 1), 1);
    assert!(banker.security_check());
}

#[test]
fn a_task_that_leaves_gives_everything_back() {
    let mut banker = BankersAlgorithm::new();
    banker.add_resource(1, 3);
    banker.add_resource(2, 2);
    banker.record(7, 1, 2);
    banker.record(7, 2, 2);
    banker.record(8, 1, 1);
    assert_eq!(banker.acquire(7, 1, 2), RequestResult::Success);
    assert_eq!(banker.acquire(7, 2, 1), RequestResult::Success);
    assert_eq!(banker.acquire(8, 1, 1), RequestResult::Success);
    banker.remove_task(7);
    assert_eq!(banker.available(1), 2);
    assert_eq!(banker.available(2), 2);
    assert_eq!(banker.allocation(7, 1), 0);
    assert_eq!(banker.need(7, 2), 0);
    assert_eq!(banker.allocation(8, 1), 1);
    assert_eq!(banker.capacity(1), 3);
    assert_eq!(banker.capacity(2), 2);
    banker.remove_task(7);
    banker.remove_task(99);
    assert_eq!(banker.capacity(1), 3);
    // Announcements can be taken back, and grants booked without a check.
    banker.record(8, 2, 2);
    banker.withdraw(8, 2, 1);
    assert_eq!(banker.need(8, 2), 1);
    banker.grant(8, 2, 1);
    assert_eq!(banker.allocation(8, 2), 1);
    assert_eq!(banker.need(8, 2), 0);
    assert_eq!(banker.available(2), 1);
}

#[test]
fn a_waiting_task_is_terminated() {
    let mut m = with_tasks(4);
    let mut mutex = MutexBlocking::new();
    let mut now = 10;
    assert_eq!(mutex_lock(&mut m, &mut mutex, now), Acquisition::Granted);
    for pid in [1usize, 2, 3] {
        run(&mut m, pid, &mut now);
        now += 1;
        assert_eq!(mutex_lock(&mut m, &mut mutex, now), Acquisition::Blocked);
    }
    // Task 2 is killed while it waits: it is never woken.
    assert!(mutex_cancel(&mut m, &mut mutex, 2, -9));
    assert!(!mutex_cancel(&mut m, &mut mutex, 2, -9));
    assert!(!mutex_cancel(&mut m, &mut mutex, 0, -9));
    assert_eq!(m.process(2).unwrap().task.task_status, TaskStatus::Zombie);
    assert_eq!(m.process(2).unwrap().exit_code, -9);
    assert_eq!(mutex.waiting(), 2);
    assert_eq!(dispatch(&mut m, now), Some(0));
    assert_eq!(mutex_unlock(&mut m, &mut mutex), Ok(Some(1)));
    run(&mut m, 1, &mut now);
    assert_eq!(mutex_unlock(&mut m, &mut mutex), Ok(Some(3)));
    // Its parent collects it like any child that has exited.
    run(&mut m, 0, &mut now);
    assert_eq!(m.waitpid(2), (2, Some(-9)));
    // Only a blocked task is terminated in this way.
    assert!(!m.terminate(0, 1));
    assert!(!m.terminate(1, 1));
    assert!(!m.terminate(77, 1));
}

#[test]
fn waiters_of_semaphores_and_conditions_are_terminated() {
    let mut m = with_tasks(3);
    let mut sem = Semaphore::new(0);
    let mut mutex = MutexBlocking::new();
    let mut condvar = Condvar::new();
    let mut now = 10;
    assert_eq!(semaphore_down(&mut m, &mut sem, now), Acquisition::Blocked);
    run(&mut m, 1, &mut now);
    now += 1;
    assert_eq!(mutex_lock(&mut m, &mut mutex, now), Acquisition::Granted);
    assert_eq!(condvar_wait(&mut m, &mut condvar, &mut mutex, now), Ok(None));
    assert!(semaphore_cancel(&mut m, &mut sem, 0, 3));
    assert_eq!(sem.count(), 0);
    assert_eq!(sem.waiting(), 0);
    assert!(!semaphore_cancel(&mut m, &mut sem, 0, 3));
    assert!(condvar_cancel(&mut m, &mut condvar, 1, 4));
    assert!(!condvar_cancel(&mut m, &mut condvar, 1, 4));
    assert_eq!(condvar.waiting(), 0);
    assert_eq!(m.process(0).unwrap().task.task_status, TaskStatus::Zombie);
    assert_eq!(m.process(1).unwrap().exit_code, 4);
    // The children of the first process stay with it.
    assert_eq!(m.process(0).unwrap().children, vec![1, 2]);
    assert_eq!(dispatch(&mut m, now), Some(2));
    assert_eq!(condvar_signal(&mut m, &mut condvar, &mut mutex), None);
}

#[test]
fn a_waiter_under_detection_is_terminated() {
    let mut m = with_tasks(3);
    let mut banker = BankersAlgorithm::new();
    let mut mutex = guarded_new(&mut banker, 5);
    let mut now = 10;
    assert_eq!(guarded_lock(&mut m, &mut banker, &mut mutex, 5, now), Ok(Acquisition::Granted));
    for pid in [1usize, 2] {
        run(&mut m, pid, &mut now);
        now += 1;
        assert_eq!(guarded_lock(&mut m, &mut banker, &mut mutex, 5, now), Ok(Acquisition::Blocked));
    }
    assert_eq!(banker.need(1, 5), 1);
    assert!(guarded_cancel(&mut m, &mut banker, &mut mutex, 5, 1, -1));
    assert!(!guarded_cancel(&mut m, &mut banker, &mut mutex, 5, 1, -1));
    assert_eq!(banker.need(1, 5), 0);
    assert_eq!(banker.need(2, 5), 1);
    assert_eq!(m.process(1).unwrap().task.task_status, TaskStatus::Zombie);
    assert_eq!(dispatch(&mut m, now), Some(0));
    assert_eq!(guarded_unlock(&mut m, &mut banker, &mut mutex, 5), Ok(Some(2)));
    assert_eq!(banker.allocation(2, 5), 1);
    assert_eq!(banker.capacity(5), 1);
}

#[test]
fn tasks_know_who_they_are() {
    let m = with_tasks(3);
    for pid in 0..3 {
        let pcb = m.process(pid).unwrap();
        assert_eq!(pcb.pid, pid);
        assert_eq!(pcb.task.pid, pid);
        assert_eq!(pcb.task.tid, pid);
    }
    assert_eq!(m.next_process_id(), 3);
}

#[test]
fn broadcast_moves_all_waiters_to_the_mutex() {
    let mut m = with_tasks(4);
    let mut mutex = MutexBlocking::new();
    let mut condvar = Condvar::new();
    let mut now = 10;
    // Tasks 0, 1 and 2 wait on the condition, each having held the mutex.
    for pid in [0usize, 1, 2] {
        run(&mut m, pid, &mut now);
        now += 1;
        assert_eq!(mutex_lock(&mut m, &mut mutex, now), Acquisition::Granted);
        assert_eq!(condvar_wait(&mut m, &mut condvar, &mut mutex, now), Ok(None));
    }
    // Task 3 notifies them all while the mutex is free: the first owns it.
    assert_eq!(dispatch(&mut m, now), Some(3));
    assert_eq!(condvar_broadcast(&mut m, &mut condvar, &mut mutex), Some(0));
    assert_eq!(condvar.waiting(), 0);
    assert_eq!(mutex.holder(), Some(0));
    assert_eq!(mutex.waiting(), 2);
    assert_eq!(m.process(0).unwrap().task.task_status, TaskStatus::Ready);
    assert_eq!(m.process(1).unwrap().task.task_status, TaskStatus::Blocked);
    assert_eq!(condvar_broadcast(&mut m, &mut condvar, &mut mutex), None);
    // The others follow as the mutex is let go of.
    run(&mut m, 0, &mut now);
    assert_eq!(mutex_unlock(&mut m, &mut mutex), Ok(Some(1)));
    run(&mut m, 1, &mut now);
    assert_eq!(mutex_unlock(&mut m, &mut mutex), Ok(Some(2)));
    // With the mutex held, a broadcast wakes nobody.
    run(&mut m, 2, &mut now);
    now += 1;
    assert_eq!(condvar_wait(&mut m, &mut condvar, &mut mutex, now), Ok(None));
    run(&mut m, 3, &mut now);
    now += 1;
    assert_eq!(mutex_lock(&mut m, &mut mutex, now), Acquisition::Granted);
    assert_eq!(condvar_broadcast(&mut m, &mut condvar, &mut mutex), None);
    assert_eq!(mutex.waiting(), 1);
    assert_eq!(mutex_unlock(&mut m, &mut mutex), Ok(Some(2)));
}
