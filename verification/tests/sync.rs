use oskernel::sync::condvar::Condvar;
use oskernel::sync::mutex::{Acquisition, MutexBlocking, MutexSpin, SyncError};
use oskernel::sync::semaphore::Semaphore;
use oskernel::sync::wait_queue::WaitQueue;

#[test]
fn wait_queue_is_fifo() {
    let mut q = WaitQueue::new();
    assert!(q.is_empty());
    assert_eq!(q.pop(), None);
    q.push(5);
    q.push(3);
    q.push(9);
    assert_eq!(q.len(), 3);
    assert!(q.contains(3));
    assert!(!q.contains(4));
    assert_eq!(q.position(9), Some(2));
    assert_eq!(q.pop(), Some(5));
    assert_eq!(q.pop(), Some(3));
    assert_eq!(q.pop(), Some(9));
    assert_eq!(q.pop(), None);
}

#[test]
fn wait_queue_remove_keeps_order() {
    let mut q = WaitQueue::new();
    for t in [1, 2, 3, 2, 4] {
        q.push(t);
    }
    assert!(q.remove(2));
    assert!(!q.remove(7));
    assert_eq!(q.pop(), Some(1));
    assert_eq!(q.pop(), Some(3));
    assert_eq!(q.pop(), Some(2));
    assert_eq!(q.pop(), Some(4));
}

#[test]
fn spin_mutex() {
    let mut m = MutexSpin::new();
    assert_eq!(m.holder(), None);
    assert_eq!(m.unlock(1), Err(SyncError::NotOwner));
    assert_eq!(m.lock(1), Acquisition::Granted);
    assert_eq!(m.holder(), Some(1));
    assert_eq!(m.lock(2), Acquisition::Busy);
    assert_eq!(m.lock(1), Acquisition::Busy);
    assert_eq!(m.unlock(2), Err(SyncError::NotOwner));
    assert_eq!(m.holder(), Some(1));
    assert_eq!(m.unlock(1), Ok(()));
    assert_eq!(m.lock(2), Acquisition::Granted);
}

#[test]
fn blocking_mutex_fifo_fairness() {
    let mut m = MutexBlocking::new();
    assert_eq!(m.lock(10), Acquisition::Granted);
    let waiters = [4usize, 7, 2, 9];
    for w in waiters {
        assert_eq!(m.lock(w), Acquisition::Blocked);
    }
    assert_eq!(m.waiting(), 4);
    assert!(m.is_waiting(7));
    let mut owner = 10;
    for w in waiters {
        assert_eq!(m.unlock(owner), Ok(Some(w)));
        assert_eq!(m.holder(), Some(w));
        owner = w;
    }
    assert_eq!(m.unlock(owner), Ok(None));
    assert_eq!(m.holder(), None);
    assert_eq!(m.waiting(), 0);
}

#[test]
fn blocking_mutex_release_by_non_owner() {
    let mut m = MutexBlocking::new();
    assert_eq!(m.unlock(1), Err(SyncError::NotOwner));
    assert_eq!(m.lock(1), Acquisition::Granted);
    assert_eq!(m.lock(2), Acquisition::Blocked);
    assert_eq!(m.unlock(2), Err(SyncError::NotOwner));
    assert_eq!(m.unlock(3), Err(SyncError::NotOwner));
    assert_eq!(m.holder(), Some(1));
    assert_eq!(m.waiting(), 1);
}

#[test]
fn blocking_mutex_cancel() {
    let mut m = MutexBlocking::new();
    m.lock(1);
    m.lock(2);
    m.lock(3);
    m.lock(4);
    assert!(m.cancel(3));
    assert!(!m.cancel(3));
    assert!(!m.cancel(1));
    assert_eq!(m.unlock(1), Ok(Some(2)));
    assert_eq!(m.unlock(2), Ok(Some(4)));
}

#[test]
fn semaphore_counts() {
    let mut s = Semaphore::new(2);
    assert_eq!(s.count(), 2);
    assert_eq!(s.down(1), Acquisition::Granted);
    assert_eq!(s.down(2), Acquisition::Granted);
    assert_eq!(s.count(), 0);
    assert_eq!(s.down(3), Acquisition::Blocked);
    assert_eq!(s.down(4), Acquisition::Blocked);
    assert_eq!(s.count(), -2);
    assert_eq!(s.waiting(), 2);
    assert_eq!(s.up(), Some(3));
    assert_eq!(s.up(), Some(4));
    assert_eq!(s.count(), 0);
    assert_eq!(s.up(), None);
    assert_eq!(s.count(), 1);
    assert_eq!(s.down(5), Acquisition::Granted);
}

#[test]
fn semaphore_of_zero_is_a_signal() {
    let mut s = Semaphore::new(0);
    assert_eq!(s.down(1), Acquisition::Blocked);
    assert_eq!(s.up(), Some(1));
    assert_eq!(s.count(), 0);
    assert_eq!(s.up(), None);
    assert_eq!(s.down(2), Acquisition::Granted);
}

#[test]
fn semaphore_cancel_gives_the_unit_back() {
    let mut s = Semaphore::new(1);
    s.down(1);
    s.down(2);
    s.down(3);
    assert_eq!(s.count(), -2);
    assert!(s.cancel(2));
    assert_eq!(s.count(), -1);
    assert!(!s.cancel(2));
    assert_eq!(s.up(), Some(3));
    assert_eq!(s.count(), 0);
}

#[test]
fn condvar_wait_and_notify() {
    const A: usize = 1;
    const B: usize = 2;
    let mut m = MutexBlocking::new();
    let mut cv = Condvar::new();
    // A holds M and waits: M is free again and A waits on the condition.
    assert_eq!(m.lock(A), Acquisition::Granted);
    assert_eq!(cv.wait(A, &mut m), Ok(None));
    assert_eq!(m.holder(), None);
    assert!(cv.is_waiting(A));
    // B takes M and notifies: A contends for M and has to wait for it.
    assert_eq!(m.lock(B), Acquisition::Granted);
    assert_eq!(cv.notify_one(&mut m), Some((A, Acquisition::Blocked)));
    assert!(!cv.is_waiting(A));
    assert!(m.is_waiting(A));
    assert_eq!(m.holder(), Some(B));
    // B lets go of M: it goes to A, which is woken owning it.
    assert_eq!(m.unlock(B), Ok(Some(A)));
    assert_eq!(m.holder(), Some(A));
    assert_eq!(cv.notify_one(&mut m), None);
}

#[test]
fn condvar_wait_needs_the_mutex() {
    let mut m = MutexBlocking::new();
    let mut cv = Condvar::new();
    assert_eq!(cv.wait(1, &mut m), Err(SyncError::NotOwner));
    m.lock(2);
    assert_eq!(cv.wait(1, &mut m), Err(SyncError::NotOwner));
    assert_eq!(cv.waiting(), 0);
    assert_eq!(m.holder(), Some(2));
}

#[test]
fn condvar_wait_hands_the_mutex_on() {
    let mut m = MutexBlocking::new();
    let mut cv = Condvar::new();
    m.lock(1);
    m.lock(2);
    assert_eq!(cv.wait(1, &mut m), Ok(Some(2)));
    assert_eq!(m.holder(), Some(2));
}

#[test]
fn condvar_notify_on_free_mutex_grants() {
    let mut m = MutexBlocking::new();
    let mut cv = Condvar::new();
    m.lock(1);
    cv.wait(1, &mut m).unwrap();
    assert_eq!(cv.notify_one(&mut m), Some((1, Acquisition::Granted)));
    assert_eq!(m.holder(), Some(1));
}

#[test]
fn condvar_notify_all() {
    let mut m = MutexBlocking::new();
    let mut cv = Condvar::new();
    for t in [1usize, 2, 3] {
        assert_eq!(m.lock(t), Acquisition::Granted);
        cv.wait(t, &mut m).unwrap();
    }
    assert_eq!(cv.waiting(), 3);
    assert_eq!(cv.notify_all(&mut m), Some(1));
    assert_eq!(cv.waiting(), 0);
    assert_eq!(m.holder(), Some(1));
    assert_eq!(m.unlock(1), Ok(Some(2)));
    assert_eq!(m.unlock(2), Ok(Some(3)));
    assert_eq!(m.unlock(3), Ok(None));
    assert_eq!(cv.notify_all(&mut m), None);

    m.lock(9);
    m.lock(1);
    cv.wait(9, &mut m).unwrap();
    assert_eq!(cv.notify_all(&mut m), None);
    assert!(m.is_waiting(9));
    assert!(!cv.cancel(9));
}
