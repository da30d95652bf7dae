//! Signals.

use vstd::prelude::*;

verus! {

/// The largest signal number.
pub const MAX_SIG: usize = 31;

/// The number of signals.
pub const SIG_COUNT: usize = 32;

/// The number of the signal that kills a task.
pub const SIGKILL: usize = 9;

/// The number of the signal that stops a task.
pub const SIGSTOP: usize = 19;

/// The mask that a signal action has at first: quit and trap.
pub const DEFAULT_ACTION_MASK: u32 = 40;

/// A set of signals: bit `n` stands for signal `n`.
#[derive(Debug, Clone, Copy, PartialEq, Eq, Structural)]
pub struct SignalFlags {
    /// The bits.
    pub bits: u32,
}

impl SignalFlags {
    /// The empty set.
    pub fn empty() -> (flags: SignalFlags)
        ensures
            flags.bits == 0,
    {
        SignalFlags { bits: 0 }
    }

    /// The set with the given bits.  Every bit stands for a signal.
    pub fn from_bits(bits: u32) -> (flags: Option<SignalFlags>)
        ensures
            flags == Some(SignalFlags { bits }),
    {
        Some(SignalFlags { bits })
    }

    /// The set that holds signal `signum` alone, if that is the number of a signal.
    pub fn of_signal(signum: i32) -> (flags: Option<SignalFlags>)
        ensures
            0 <= signum <= MAX_SIG ==> flags == Some(SignalFlags { bits: 1u32 << (signum as u32) }),
            !(0 <= signum <= MAX_SIG) ==> flags is None,
    {
        if 0 <= signum && signum <= 31 {
            let shift = signum as u32;
            Some(SignalFlags { bits: 1u32 << shift })
        } else {
            None
        }
    }

    /// The bits.
    pub fn bits(&self) -> (bits: u32)
        ensures
            bits == self.bits,
    {
        self.bits
    }

    /// Whether every signal of `other` is in the set.
    pub fn contains(&self, other: SignalFlags) -> (b: bool)
        ensures
            b == (self.bits & other.bits == other.bits),
    {
        self.bits & other.bits == other.bits
    }

    /// Put the signals of `other` into the set.
    pub fn insert(&mut self, other: SignalFlags)
        ensures
            final(self).bits == old(self).bits | other.bits,
    {
        self.bits = self.bits | other.bits;
    }
}

/// What a task does when a signal arrives: the address of the handler and
/// the signals that are held back while it runs.
#[derive(Debug, Clone, Copy, PartialEq, Eq, Structural)]
pub struct SignalAction {
    /// The address of the handler.
    pub handler: usize,
    /// The signals held back while the handler runs.
    pub mask: SignalFlags,
}

impl SignalAction {
    /// The action that a task has for a signal at first.
    pub fn new() -> (action: SignalAction)
        ensures
            action == (SignalAction {
                handler: 0,
                mask: SignalFlags { bits: DEFAULT_ACTION_MASK },
            }),
    {
        SignalAction { handler: 0, mask: SignalFlags { bits: DEFAULT_ACTION_MASK } }
    }
}

/// The actions of a task, by signal number.
#[derive(Debug, Clone, Copy)]
pub struct SignalActions {
    /// The action for every signal.
    pub table: [SignalAction; SIG_COUNT],
}

impl SignalActions {
    /// The actions that a task has at first.
    pub fn new() -> (actions: SignalActions)
        ensures
            forall|i: int| 0 <= i < SIG_COUNT ==> actions.table[i] == (SignalAction {
                handler: 0,
                mask: SignalFlags { bits: DEFAULT_ACTION_MASK },
            }),
    {
        SignalActions { table: [SignalAction::new();SIG_COUNT] }
    }
}

} // verus!
