//! Deadlock avoidance, process by process.
//!
//! Deadlock detection is enabled for a process on its demand.  From then on
//! the resources of the process and the tasks that use them are kept in the
//! books of a banker's algorithm, which answers every request for a
//! resource: see [`BankersAlgorithm`].  The requests of a process for which
//! detection is not enabled are not looked at.

pub use super::bankers_algorithm::{BankersAlgorithm, BankersView, TaskResourcesState, TaskView};
use std::collections::BTreeMap;
use vstd::prelude::*;

verus! {

broadcast use vstd::std_specs::btree::group_btree_axioms;

/// Identifier of a resource kind.
pub type ResourceIdentifier = usize;

/// A number of units of one resource kind.
pub type NumberOfResource = usize;

/// Identifier of a task.
pub type TaskIdentifier = usize;

/// Outcome of a request made to the banker's algorithm.
#[derive(Debug, PartialEq, Eq, Clone, Copy, Structural)]
pub enum RequestResult {
    /// Granting would leave the system in an unsafe state.
    Deadlock,
    /// Not enough free units: the caller has to wait.
    Wait,
    /// The request is granted.
    Success,
    /// The request is larger than what the task announced.
    Exceeded,
}

/// Deadlock detection by process: the processes that have it enabled, each
/// with its own banker's algorithm state.
#[derive(Debug)]
pub struct DeadlockDetect {
    enabled: BTreeMap<usize, BankersAlgorithm>,
}

impl DeadlockDetect {
    /// Every state that is kept is well formed.
    pub closed spec fn wf(&self) -> bool {
        forall|pid: usize| #[trigger]
            self.enabled@.contains_key(pid) ==> self.enabled@[pid].wf()
    }

    /// Detection is enabled for process `pid`.
    pub closed spec fn is_enabled(&self, pid: usize) -> bool {
        self.enabled@.contains_key(pid)
    }

    /// The state kept for process `pid`.
    pub closed spec fn state(&self, pid: usize) -> BankersView {
        self.enabled@[pid]@
    }

    /// `self` and `other` agree on every process but `pid`.
    pub closed spec fn same_but(&self, other: &DeadlockDetect, pid: usize) -> bool {
        forall|p: usize|
            p != pid ==> (#[trigger] self.enabled@.contains_key(p) == other.enabled@.contains_key(p))
                && (self.enabled@.contains_key(p) ==> self.enabled@[p] == other.enabled@[p])
    }

    /// What [`Self::same_but`] says of the processes other than `pid`.
    pub proof fn lemma_same_but(&self, other: &DeadlockDetect, pid: usize, p: usize)
        requires
            self.same_but(other, pid),
            p != pid,
        ensures
            self.is_enabled(p) == other.is_enabled(p),
            self.is_enabled(p) ==> self.state(p) == other.state(p),
    {
        assert(self.enabled@.contains_key(p) == other.enabled@.contains_key(p));
    }

    /// Detection enabled for no process.
    pub fn new() -> (d: Self)
        ensures
            d.wf(),
            forall|pid: usize| !d.is_enabled(pid),
    {
        DeadlockDetect { enabled: BTreeMap::new() }
    }

    /// Whether detection is enabled for process `pid`.
    pub fn enabled(&self, pid: usize) -> (b: bool)
        ensures
            b == self.is_enabled(pid),
    {
        self.enabled.contains_key(&pid)
    }

    /// The state kept for process `pid`, if detection is enabled for it.
    pub fn algorithm(&self, pid: usize) -> (a: Option<&BankersAlgorithm>)
        requires
            self.wf(),
        ensures
            a.is_some() == self.is_enabled(pid),
            a matches Some(alg) ==> alg.wf() && alg@ == self.state(pid),
    {
        self.enabled.get(&pid)
    }
}

/// Enable deadlock detection for process `pid`, starting from an empty state.
pub fn enable(detect: &mut DeadlockDetect, pid: usize)
    requires
        old(detect).wf(),
        !old(detect).is_enabled(pid),
    ensures
        final(detect).wf(),
        final(detect).is_enabled(pid),
        final(detect).state(pid).tasks.len() == 0,
        forall|r: ResourceIdentifier| final(detect).state(pid).available(r) == 0,
        final(detect).same_but(old(detect), pid),
{
    let algorithm = BankersAlgorithm::new();
    detect.enabled.insert(pid, algorithm);
}

/// Disable deadlock detection for process `pid` and forget its state.
pub fn disable(detect: &mut DeadlockDetect, pid: usize)
    requires
        old(detect).wf(),
    ensures
        final(detect).wf(),
        !final(detect).is_enabled(pid),
        final(detect).same_but(old(detect), pid),
{
    detect.enabled.remove(&pid);
}

/// Add `n` free units of `resource` for process `pid`, if detection is enabled for it.
pub fn add_resource(
    detect: &mut DeadlockDetect,
    pid: usize,
    resource: ResourceIdentifier,
    n: NumberOfResource,
)
    requires
        old(detect).wf(),
        old(detect).is_enabled(pid) ==> old(detect).state(pid).capacity(resource) + n <= usize::MAX,
    ensures
        final(detect).wf(),
        final(detect).same_but(old(detect), pid),
        final(detect).is_enabled(pid) == old(detect).is_enabled(pid),
        old(detect).is_enabled(pid) ==> {
            let pre = old(detect).state(pid);
            let post = final(detect).state(pid);
            &&& post.tasks == pre.tasks
            &&& post.available(resource) == pre.available(resource) + n
            &&& forall|r: ResourceIdentifier| r != resource ==> post.available(r) == pre.available(r)
            &&& post.capacity(resource) == pre.capacity(resource) + n
            &&& forall|r: ResourceIdentifier| r != resource ==> post.capacity(r) == pre.capacity(r)
        },
{
    match detect.enabled.remove(&pid) {
        Some(algorithm) => {
            let mut algorithm = algorithm;
            algorithm.add_resource(resource, n);
            detect.enabled.insert(pid, algorithm);
        },
        None => {},
    }
}

/// Announce for process `pid` that `task` may ask for `n` more units of
/// `resource`, if detection is enabled for it.
pub fn record(
    detect: &mut DeadlockDetect,
    pid: usize,
    task: TaskIdentifier,
    resource: ResourceIdentifier,
    n: NumberOfResource,
)
    requires
        old(detect).wf(),
        old(detect).is_enabled(pid) ==> old(detect).state(pid).need(task, resource) + n <= usize::MAX,
    ensures
        final(detect).wf(),
        final(detect).same_but(old(detect), pid),
        final(detect).is_enabled(pid) == old(detect).is_enabled(pid),
        old(detect).is_enabled(pid) ==> old(detect).state(pid).declares(
            final(detect).state(pid),
            task,
            resource,
            n,
        ),
{
    match detect.enabled.remove(&pid) {
        Some(algorithm) => {
            let mut algorithm = algorithm;
            algorithm.record(task, resource, n);
            detect.enabled.insert(pid, algorithm);
        },
        None => {},
    }
}

/// Ask for `n` units of `resource` on behalf of `task` of process `pid`.
///
/// `None` when detection is not enabled for the process; otherwise what
/// [`BankersAlgorithm::acquire`] answers.
pub fn acquire(
    detect: &mut DeadlockDetect,
    pid: usize,
    task: TaskIdentifier,
    resource: ResourceIdentifier,
    n: NumberOfResource,
) -> (result: Option<RequestResult>)
    requires
        old(detect).wf(),
    ensures
        final(detect).wf(),
        final(detect).same_but(old(detect), pid),
        final(detect).is_enabled(pid) == old(detect).is_enabled(pid),
        result.is_some() == old(detect).is_enabled(pid),
        result matches Some(answer) ==> {
            let pre = old(detect).state(pid);
            let post = final(detect).state(pid);
            &&& n > pre.need(task, resource) <==> answer == RequestResult::Exceeded
            &&& n <= pre.need(task, resource) && n > pre.available(resource) <==> answer
                == RequestResult::Wait
            &&& answer == RequestResult::Success ==> pre.grants(post, task, resource, n)
                && post.is_safe()
            &&& answer != RequestResult::Success ==> post == pre
            &&& answer == RequestResult::Deadlock ==> forall|other: BankersView|
                pre.grants(other, task, resource, n) ==> !other.is_safe()
        },
{
    match detect.enabled.remove(&pid) {
        Some(algorithm) => {
            let mut algorithm = algorithm;
            let answer = algorithm.acquire(task, resource, n);
            detect.enabled.insert(pid, algorithm);
            Some(answer)
        },
        None => None,
    }
}

/// Give `n` units of `resource` that `task` of process `pid` holds back to
/// the free ones, if detection is enabled for the process.
pub fn release(
    detect: &mut DeadlockDetect,
    pid: usize,
    task: TaskIdentifier,
    resource: ResourceIdentifier,
    n: NumberOfResource,
)
    requires
        old(detect).wf(),
        old(detect).is_enabled(pid) ==> n <= old(detect).state(pid).allocation(task, resource),
    ensures
        final(detect).wf(),
        final(detect).same_but(old(detect), pid),
        final(detect).is_enabled(pid) == old(detect).is_enabled(pid),
        old(detect).is_enabled(pid) ==> old(detect).state(pid).gives_back(
            final(detect).state(pid),
            task,
            resource,
            n,
        ),
{
    match detect.enabled.remove(&pid) {
        Some(algorithm) => {
            let mut algorithm = algorithm;
            algorithm.release(task, resource, n);
            detect.enabled.insert(pid, algorithm);
        },
        None => {},
    }
}

/// Announce for process `pid` that `task` may ask for `n` more units of
/// `resource`, unless that would leave the state unsafe.
///
/// `None` when detection is not enabled for the process; otherwise what
/// [`BankersAlgorithm::request`] answers.
pub fn request(
    detect: &mut DeadlockDetect,
    pid: usize,
    task: TaskIdentifier,
    resource: ResourceIdentifier,
    n: NumberOfResource,
) -> (result: Option<RequestResult>)
    requires
        old(detect).wf(),
        old(detect).is_enabled(pid) ==> old(detect).state(pid).need(task, resource) + n <= usize::MAX,
    ensures
        final(detect).wf(),
        final(detect).same_but(old(detect), pid),
        final(detect).is_enabled(pid) == old(detect).is_enabled(pid),
        result.is_some() == old(detect).is_enabled(pid),
        result matches Some(answer) ==> {
            let pre = old(detect).state(pid);
            let post = final(detect).state(pid);
            &&& answer == RequestResult::Success || answer == RequestResult::Deadlock
            &&& answer == RequestResult::Success ==> pre.declares(post, task, resource, n)
                && post.is_safe()
            &&& answer == RequestResult::Deadlock ==> post == pre
            &&& answer == RequestResult::Deadlock ==> forall|other: BankersView|
                pre.declares(other, task, resource, n) ==> !other.is_safe()
        },
{
    match detect.enabled.remove(&pid) {
        Some(algorithm) => {
            let mut algorithm = algorithm;
            let answer = algorithm.request(task, resource, n);
            detect.enabled.insert(pid, algorithm);
            Some(answer)
        },
        None => None,
    }
}

} // verus!
