//! A check that system calls do not overlap.
//!
//! A system call runs to its end before the next one begins, with two
//! exceptions: a task that yields or exits leaves the processor in the
//! middle of its call, and other tasks make their calls before the yield
//! returns, if it ever does.  The checker counts the calls that have begun
//! and not ended and is told of every begin and end.

use super::{SYSCALL_EXIT, SYSCALL_YIELD};
use std::collections::BTreeMap;
use vstd::prelude::*;

verus! {

broadcast use vstd::std_specs::btree::group_btree_axioms;

/// Whether a task that makes system call `syscall_id` leaves the processor
/// in the middle of the call.
pub open spec fn switches(syscall_id: usize) -> bool {
    syscall_id == SYSCALL_YIELD || syscall_id == SYSCALL_EXIT
}

/// For every system call, how many calls of it have begun and not ended.
#[derive(Debug)]
pub struct SyscallCheckerState {
    counter: BTreeMap<usize, i32>,
    pending: Option<usize>,
}

impl SyscallCheckerState {
    /// How many calls of system call `syscall_id` have begun and not ended.
    pub closed spec fn in_flight(&self, syscall_id: usize) -> int {
        if self.counter@.contains_key(syscall_id) {
            self.counter@[syscall_id] as int
        } else {
            0
        }
    }

    /// The call that has begun and not ended, other than yields and exits.
    pub closed spec fn pending(&self) -> Option<usize> {
        self.pending
    }

    /// Of the calls other than yields and exits, at most one has begun and
    /// not ended, and the state knows which.
    pub closed spec fn wf(&self) -> bool {
        &&& self.pending matches Some(id) ==> !switches(id)
        &&& forall|id: usize|
            !switches(id) ==> #[trigger] self.in_flight(id) == if self.pending == Some(id) {
                1int
            } else {
                0int
            }
    }

    /// No call other than yields and exits has begun and not ended.
    pub open spec fn quiet(&self) -> bool {
        forall|id: usize| !switches(id) ==> #[trigger] self.in_flight(id) == 0
    }

    /// Being quiet is having no pending call.
    pub proof fn lemma_quiet(&self)
        requires
            self.wf(),
        ensures
            self.quiet() <==> self.pending() is None,
    {
        if let Some(id) = self.pending {
            assert(self.in_flight(id) == 1);
        }
    }

    /// A state in which no call has begun.
    pub fn new() -> (state: Self)
        ensures
            state.wf(),
            state.quiet(),
            forall|id: usize| state.in_flight(id) == 0,
    {
        SyscallCheckerState { counter: BTreeMap::new(), pending: None }
    }

    /// Whether no call other than yields and exits has begun and not ended.
    pub fn is_quiet(&self) -> (b: bool)
        requires
            self.wf(),
        ensures
            b == self.quiet(),
    {
        proof {
            self.lemma_quiet();
        }
        self.pending.is_none()
    }

    /// How many calls of system call `syscall_id` have begun and not ended.
    pub fn count(&self, syscall_id: usize) -> (n: i32)
        ensures
            n == self.in_flight(syscall_id),
    {
        match self.counter.get(&syscall_id) {
            Some(n) => *n,
            None => 0,
        }
    }
}

/// One system call, from its begin to its end.
#[derive(Debug, Clone, Copy)]
pub struct SyscallChecker {
    /// The number of the system call.
    pub syscall_id: usize,
    /// The arguments of the system call.
    pub args: [usize; 4],
}

impl SyscallChecker {
    /// The system call `syscall_id` with the arguments `args` begins.
    pub fn new(state: &mut SyscallCheckerState, syscall_id: usize, args: [usize; 4]) -> (checker:
        Self)
        requires
            old(state).wf(),
            old(state).quiet(),
            old(state).in_flight(syscall_id) < i32::MAX,
        ensures
            final(state).wf(),
            checker.syscall_id == syscall_id,
            checker.args == args,
            final(state).in_flight(syscall_id) == old(state).in_flight(syscall_id) + 1,
            forall|id: usize| id != syscall_id ==> final(state).in_flight(id) == old(state).in_flight(id),
    {
        let checker = SyscallChecker { syscall_id, args };
        checker.start(state);
        checker
    }

    /// The call begins: no call other than yields and exits may be under
    /// way.  The call is counted.
    pub fn start(&self, state: &mut SyscallCheckerState)
        requires
            old(state).wf(),
            old(state).quiet(),
            old(state).in_flight(self.syscall_id) < i32::MAX,
        ensures
            final(state).wf(),
            final(state).in_flight(self.syscall_id) == old(state).in_flight(self.syscall_id) + 1,
            forall|id: usize|
                id != self.syscall_id ==> final(state).in_flight(id) == old(state).in_flight(id),
    {
        proof {
            old(state).lemma_quiet();
        }
        let n = state.count(self.syscall_id);
        state.counter.insert(self.syscall_id, n + 1);
        if !(self.syscall_id == SYSCALL_YIELD || self.syscall_id == SYSCALL_EXIT) {
            state.pending = Some(self.syscall_id);
        }
        proof {
            assert forall|id: usize| !switches(id) implies #[trigger] state.in_flight(id) == if state.pending
                == Some(id) {
                1int
            } else {
                0int
            } by {
                assert(old(state).in_flight(id) == 0);
            }
        }
    }

    /// The call ends: it is taken out of the count, and no call other than
    /// yields and exits is under way any more.
    pub fn finalize(&self, state: &mut SyscallCheckerState)
        requires
            old(state).wf(),
            old(state).in_flight(self.syscall_id) > i32::MIN,
            if switches(self.syscall_id) {
                old(state).quiet()
            } else {
                old(state).pending() == Some(self.syscall_id)
            },
        ensures
            final(state).wf(),
            final(state).quiet(),
            final(state).in_flight(self.syscall_id) == old(state).in_flight(self.syscall_id) - 1,
            forall|id: usize|
                id != self.syscall_id ==> final(state).in_flight(id) == old(state).in_flight(id),
    {
        proof {
            old(state).lemma_quiet();
        }
        let n = state.count(self.syscall_id);
        state.counter.insert(self.syscall_id, n - 1);
        if !(self.syscall_id == SYSCALL_YIELD || self.syscall_id == SYSCALL_EXIT) {
            state.pending = None;
        }
        proof {
            assert forall|id: usize| !switches(id) implies #[trigger] state.in_flight(id) == 0 by {
                assert(old(state).in_flight(id) == if old(state).pending == Some(id) {
                    1int
                } else {
                    0int
                });
            }
        }
    }

    /// Whether the call can end: see [`Self::finalize`].
    pub fn can_finalize(&self, state: &SyscallCheckerState) -> (b: bool)
        requires
            state.wf(),
        ensures
            b == (state.in_flight(self.syscall_id) > i32::MIN && if switches(self.syscall_id) {
                state.quiet()
            } else {
                state.pending() == Some(self.syscall_id)
            }),
    {
        proof {
            state.lemma_quiet();
        }
        let fits = state.count(self.syscall_id) > i32::MIN;
        let switching = self.syscall_id == SYSCALL_YIELD || self.syscall_id == SYSCALL_EXIT;
        let pending_is_mine = match state.pending {
            Some(id) => id == self.syscall_id,
            None => false,
        };
        fits && if switching {
            state.pending.is_none()
        } else {
            pending_is_mine
        }
    }
}

} // verus!
