//! Task priorities, bounded at construction.
//!
//! In C a priority is an `UBaseType_t` the caller promises is below
//! `configMAX_PRIORITIES`. Here [`Priority::new`] refuses anything at or above
//! the configured maximum, so every `Priority` a kernel holds is valid and no
//! range check is repeated downstream.
use vstd::prelude::*;

use crate::error::{Error, Result};
use crate::text::{decimal, push_decimal};

verus! {

/// A task priority: `0` is the idle priority (`tskIDLE_PRIORITY`), higher
/// numbers run first.
#[derive(Debug, Clone, Copy, PartialEq, Eq, PartialOrd, Ord, Hash)]
pub struct Priority(u8);

impl View for Priority {
    /// The priority as a number.
    type V = u8;

    closed spec fn view(&self) -> u8 {
        self.0
    }
}

impl Priority {
    /// Two priorities are the same exactly when their views agree.
    pub proof fn lemma_view_determines(a: Self, b: Self)
        requires
            a@ == b@,
        ensures
            a == b,
    {
    }

    /// The idle task's priority, `tskIDLE_PRIORITY`.
    pub fn idle() -> (p: Self)
        ensures
            p@ == 0,
    {
        Priority(0)
    }

    /// A priority `raw`, valid iff `raw < max_priorities`
    /// (`Config::MAX_PRIORITIES`); [`Error::InvalidPriority`] otherwise.
    pub fn new(raw: u8, max_priorities: u8) -> (r: Result<Self>)
        ensures
            raw < max_priorities ==> r is Ok && r->Ok_0@ == raw,
            raw >= max_priorities ==> r == Err::<Self, Error>(Error::InvalidPriority),
    {
        if raw < max_priorities {
            Ok(Priority(raw))
        } else {
            Err(Error::InvalidPriority)
        }
    }

    /// The highest priority a configuration allows, `max_priorities - 1`;
    /// [`Error::InvalidArgument`] when `max_priorities` is zero.
    pub fn highest(max_priorities: u8) -> (r: Result<Self>)
        ensures
            max_priorities > 0 ==> r is Ok && r->Ok_0@ == max_priorities - 1,
            max_priorities == 0 ==> r == Err::<Self, Error>(Error::InvalidArgument),
    {
        match max_priorities.checked_sub(1) {
            Some(p) => Ok(Priority(p)),
            None => Err(Error::InvalidArgument),
        }
    }

    /// The priority as a number.
    pub fn get(self) -> (r: u8)
        ensures
            r == self@,
    {
        self.0
    }

    /// The priority as text: its number in decimal.
    pub fn to_string(self) -> (r: String)
        ensures
            r@ == decimal(self@ as nat),
    {
        let mut s = String::new();
        push_decimal(&mut s, self.0 as u64);
        s
    }

    /// Whether this is the idle priority.
    pub fn is_idle(self) -> (r: bool)
        ensures
            r == (self@ == 0),
    {
        self.0 == 0
    }
}

impl Default for Priority {
    /// The idle priority, 0.
    fn default() -> (p: Self)
        ensures
            p@ == 0,
    {
        Priority(0)
    }
}

} // verus!
