//! Task priorities.
//!
//! A priority is the weight of a task in stride scheduling: each time the
//! task is dispatched its stride advances by `BIG_STRIDE / priority`.  A
//! valid priority is at least [`MIN_PRIORITY`], so that no single advance
//! covers more than half of `BIG_STRIDE`.

use vstd::prelude::*;

verus! {

/// The smallest valid priority.
pub const MIN_PRIORITY: isize = 2;

/// The priority of a task that never set one.
pub const DEFAULT_PRIORITY: isize = 16;

/// Task priority kept in an integer of type `T`.
#[derive(Debug, Clone, Copy, PartialEq, Eq, PartialOrd, Ord)]
pub struct PriorityImpl<T>(pub T);

/// Task priority as the kernel keeps it.
pub type Priority = PriorityImpl<u32>;

impl<T> PriorityImpl<T> {
    /// A priority of the given value.
    pub fn new(value: T) -> (p: Self)
        ensures
            p.0 == value,
    {
        Self(value)
    }
}

impl Default for PriorityImpl<u32> {
    fn default() -> (p: Self)
        ensures
            p.0 == DEFAULT_PRIORITY,
    {
        PriorityImpl(16)
    }
}

impl TryFrom<isize> for PriorityImpl<u32> {
    type Error = ();

    fn try_from(value: isize) -> (r: Result<Self, ()>)
    {
        if value < MIN_PRIORITY {
            return Err(());
        }
        match u32::try_from(value) {
            Ok(inner) => Ok(PriorityImpl(inner)),
            Err(_) => Err(()),
        }
    }
}

impl vstd::std_specs::convert::TryFromSpecImpl<isize> for PriorityImpl<u32> {
    open spec fn obeys_try_from_spec() -> bool {
        true
    }

    open spec fn try_from_spec(value: isize) -> Result<Self, ()> {
        if MIN_PRIORITY <= value <= u32::MAX {
            Ok(PriorityImpl(value as u32))
        } else {
            Err(())
        }
    }
}

impl Default for PriorityImpl<u8> {
    fn default() -> (p: Self)
        ensures
            p.0 == DEFAULT_PRIORITY,
    {
        PriorityImpl(16)
    }
}

impl TryFrom<isize> for PriorityImpl<u8> {
    type Error = ();

    fn try_from(value: isize) -> (r: Result<Self, ()>)
    {
        if value < MIN_PRIORITY {
            return Err(());
        }
        match u8::try_from(value) {
            Ok(inner) => Ok(PriorityImpl(inner)),
            Err(_) => Err(()),
        }
    }
}

impl vstd::std_specs::convert::TryFromSpecImpl<isize> for PriorityImpl<u8> {
    open spec fn obeys_try_from_spec() -> bool {
        true
    }

    open spec fn try_from_spec(value: isize) -> Result<Self, ()> {
        if MIN_PRIORITY <= value <= u8::MAX {
            Ok(PriorityImpl(value as u8))
        } else {
            Err(())
        }
    }
}

impl Default for PriorityImpl<usize> {
    fn default() -> (p: Self)
        ensures
            p.0 == DEFAULT_PRIORITY,
    {
        PriorityImpl(16)
    }
}

impl TryFrom<isize> for PriorityImpl<usize> {
    type Error = ();

    fn try_from(value: isize) -> (r: Result<Self, ()>)
    {
        if value < MIN_PRIORITY {
            return Err(());
        }
        match usize::try_from(value) {
            Ok(inner) => Ok(PriorityImpl(inner)),
            Err(_) => Err(()),
        }
    }
}

impl vstd::std_specs::convert::TryFromSpecImpl<isize> for PriorityImpl<usize> {
    open spec fn obeys_try_from_spec() -> bool {
        true
    }

    open spec fn try_from_spec(value: isize) -> Result<Self, ()> {
        if MIN_PRIORITY <= value <= usize::MAX {
            Ok(PriorityImpl(value as usize))
        } else {
            Err(())
        }
    }
}

} // verus!
