use oskernel::sync::deadlock_avoidance::{
    acquire, add_resource, disable, enable, record, release, request, BankersAlgorithm,
    DeadlockDetect, RequestResult,
};

const A: usize = 1;
const B: usize = 2;
const FIRST: usize = 10;
const SECOND: usize = 20;

fn two_resources() -> BankersAlgorithm {
    let mut banker = BankersAlgorithm::new();
    banker.add_resource(FIRST, 1);
    banker.add_resource(SECOND, 1);
    banker
}

#[test]
fn empty_state_is_safe() {
    let banker = BankersAlgorithm::new();
    assert!(banker.security_check());
    assert_eq!(banker.available(3), 0);
    assert_eq!(banker.allocation(1, 3), 0);
    assert_eq!(banker.need(1, 3), 0);
    assert_eq!(banker.capacity(3), 0);
}

#[test]
fn add_resource_accumulates() {
    let mut banker = BankersAlgorithm::new();
    banker.add_resource(FIRST, 2);
    banker.add_resource(FIRST, 3);
    banker.add_resource(SECOND, 7);
    assert_eq!(banker.available(FIRST), 5);
    assert_eq!(banker.available(SECOND), 7);
    assert_eq!(banker.capacity(FIRST), 5);
    assert_eq!(banker.capacity(SECOND), 7);
}

#[test]
fn acquire_more_than_declared_is_rejected() {
    let mut banker = two_resources();
    assert_eq!(banker.acquire(A, FIRST, 1), RequestResult::Exceeded);
    banker.record(A, FIRST, 1);
    assert_eq!(banker.acquire(A, FIRST, 2), RequestResult::Exceeded);
    assert_eq!(banker.available(FIRST), 1);
    assert_eq!(banker.allocation(A, FIRST), 0);
    assert_eq!(banker.need(A, FIRST), 1);
}

#[test]
fn acquire_more_than_available_waits() {
    let mut banker = two_resources();
    banker.record(A, FIRST, 3);
    assert_eq!(banker.acquire(A, FIRST, 2), RequestResult::Wait);
    assert_eq!(banker.available(FIRST), 1);
    assert_eq!(banker.allocation(A, FIRST), 0);
    assert_eq!(banker.need(A, FIRST), 3);
}

#[test]
fn acquire_moves_units_from_free_to_held() {
    let mut banker = BankersAlgorithm::new();
    banker.add_resource(FIRST, 5);
    banker.record(A, FIRST, 4);
    assert_eq!(banker.acquire(A, FIRST, 3), RequestResult::Success);
    assert_eq!(banker.available(FIRST), 2);
    assert_eq!(banker.allocation(A, FIRST), 3);
    assert_eq!(banker.need(A, FIRST), 1);
    assert!(banker.security_check());
}

#[test]
fn release_returns_units() {
    let mut banker = BankersAlgorithm::new();
    banker.add_resource(FIRST, 5);
    banker.record(A, FIRST, 4);
    assert_eq!(banker.acquire(A, FIRST, 3), RequestResult::Success);
    banker.release(A, FIRST, 2);
    assert_eq!(banker.available(FIRST), 4);
    assert_eq!(banker.allocation(A, FIRST), 1);
    assert_eq!(banker.need(A, FIRST), 1);
    banker.release(A, FIRST, 0);
    assert_eq!(banker.available(FIRST), 4);
}

#[test]
fn conservation_over_a_run() {
    let mut banker = BankersAlgorithm::new();
    banker.add_resource(FIRST, 4);
    banker.add_resource(SECOND, 3);
    banker.record(A, FIRST, 3);
    banker.record(B, FIRST, 2);
    banker.record(B, SECOND, 3);
    let steps: [(usize, usize, usize, bool); 8] = [
        (A, FIRST, 2, true),
        (B, FIRST, 1, true),
        (B, SECOND, 3, true),
        (A, FIRST, 1, false),
        (B, SECOND, 2, false),
        (A, FIRST, 1, true),
        (B, FIRST, 1, true),
        (A, FIRST, 1, false),
    ];
    for (task, kind, n, take) in steps {
        if take {
            let _ = banker.acquire(task, kind, n);
        } else if n <= banker.allocation(task, kind) {
            banker.release(task, kind, n);
        }
        assert_eq!(banker.capacity(FIRST), 4);
        assert_eq!(banker.capacity(SECOND), 3);
        assert_eq!(
            banker.available(FIRST) + banker.allocation(A, FIRST) + banker.allocation(B, FIRST),
            4
        );
        assert_eq!(
            banker.available(SECOND) + banker.allocation(A, SECOND) + banker.allocation(B, SECOND),
            3
        );
    }
}

#[test]
fn deadlock_rejection_of_second_symmetric_request() {
    let mut banker = two_resources();
    // A takes the first resource.
    assert_eq!(banker.request(A, FIRST, 1), RequestResult::Success);
    assert_eq!(banker.acquire(A, FIRST, 1), RequestResult::Success);
    // B takes the second resource.
    assert_eq!(banker.request(B, SECOND, 1), RequestResult::Success);
    assert_eq!(banker.acquire(B, SECOND, 1), RequestResult::Success);
    // A asks for the second resource: B can still finish and hand it over.
    assert_eq!(banker.request(A, SECOND, 1), RequestResult::Success);
    assert_eq!(banker.acquire(A, SECOND, 1), RequestResult::Wait);
    // B asks for the first resource: neither could finish any more.
    assert_eq!(banker.request(B, FIRST, 1), RequestResult::Deadlock);
    // The rejected request left no trace.
    assert_eq!(banker.need(B, FIRST), 0);
    assert_eq!(banker.allocation(B, SECOND), 1);
    assert_eq!(banker.available(FIRST), 0);
    assert_eq!(banker.available(SECOND), 0);
    assert!(banker.security_check());
}

#[test]
fn unsafe_grant_is_rolled_back() {
    let mut banker = two_resources();
    banker.record(A, FIRST, 1);
    banker.record(A, SECOND, 1);
    banker.record(B, FIRST, 1);
    banker.record(B, SECOND, 1);
    assert_eq!(banker.acquire(A, FIRST, 1), RequestResult::Success);
    assert_eq!(banker.acquire(B, SECOND, 1), RequestResult::Deadlock);
    assert_eq!(banker.available(FIRST), 0);
    assert_eq!(banker.available(SECOND), 1);
    assert_eq!(banker.allocation(A, FIRST), 1);
    assert_eq!(banker.allocation(B, SECOND), 0);
    assert_eq!(banker.need(B, SECOND), 1);
    assert!(banker.security_check());
    // A can go on and finish.
    assert_eq!(banker.acquire(A, SECOND, 1), RequestResult::Success);
    banker.release(A, FIRST, 1);
    banker.release(A, SECOND, 1);
    assert_eq!(banker.acquire(B, SECOND, 1), RequestResult::Success);
}

#[test]
fn need_beyond_capacity_is_unsafe() {
    let mut banker = two_resources();
    assert_eq!(banker.request(A, FIRST, 2), RequestResult::Deadlock);
    assert_eq!(banker.need(A, FIRST), 0);
    banker.record(A, FIRST, 2);
    assert!(!banker.security_check());
}

#[test]
fn need_of_unknown_resource_is_unsafe() {
    let mut banker = BankersAlgorithm::new();
    assert_eq!(banker.request(A, FIRST, 1), RequestResult::Deadlock);
    assert_eq!(banker.acquire(A, FIRST, 0), RequestResult::Success);
}

#[test]
fn detection_is_kept_by_process() {
    let mut detect = DeadlockDetect::new();
    assert!(!detect.enabled(7));
    assert_eq!(request(&mut detect, 7, A, FIRST, 1), None);
    assert_eq!(acquire(&mut detect, 7, A, FIRST, 1), None);
    add_resource(&mut detect, 7, FIRST, 1);
    record(&mut detect, 7, A, FIRST, 1);
    release(&mut detect, 7, A, FIRST, 0);

    enable(&mut detect, 7);
    enable(&mut detect, 8);
    assert!(detect.enabled(7));
    add_resource(&mut detect, 7, FIRST, 1);
    assert_eq!(request(&mut detect, 7, A, FIRST, 1), Some(RequestResult::Success));
    assert_eq!(acquire(&mut detect, 7, A, FIRST, 1), Some(RequestResult::Success));
    assert_eq!(request(&mut detect, 8, A, FIRST, 1), Some(RequestResult::Deadlock));
    record(&mut detect, 7, B, FIRST, 1);
    assert_eq!(acquire(&mut detect, 7, B, FIRST, 1), Some(RequestResult::Wait));
    release(&mut detect, 7, A, FIRST, 1);
    assert_eq!(acquire(&mut detect, 7, B, FIRST, 1), Some(RequestResult::Success));
    assert_eq!(detect.algorithm(7).unwrap().allocation(B, FIRST), 1);
    assert_eq!(detect.algorithm(8).unwrap().available(FIRST), 0);

    disable(&mut detect, 7);
    assert!(!detect.enabled(7));
    assert!(detect.enabled(8));
    assert!(detect.algorithm(7).is_none());
}

#[test]
fn take_announces_and_grants_in_one_step() {
    let mut banker = two_resources();
    assert_eq!(banker.take(A, FIRST, 2), RequestResult::Wait);
    assert_eq!(banker.take(A, FIRST, 1), RequestResult::Success);
    assert_eq!(banker.allocation(A, FIRST), 1);
    assert_eq!(banker.need(A, FIRST), 0);
    assert_eq!(banker.available(FIRST), 0);
    // B has announced that it needs the first resource, which A holds, and A
    // announces that it needs the second: B may not take the second.
    banker.record(B, FIRST, 1);
    banker.record(A, SECOND, 1);
    assert_eq!(banker.take(B, SECOND, 1), RequestResult::Deadlock);
    assert_eq!(banker.allocation(B, SECOND), 0);
    assert_eq!(banker.available(SECOND), 1);
    assert_eq!(banker.take(B, SECOND, 0), RequestResult::Success);
    assert_eq!(banker.acquire(A, SECOND, 1), RequestResult::Success);
    assert_eq!(banker.capacity(FIRST), 1);
    assert_eq!(banker.capacity(SECOND), 1);
}
