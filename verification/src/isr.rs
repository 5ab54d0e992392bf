//! The interrupt side as a type.
//!
//! FreeRTOS has a `*FromISR` twin of most API calls, and calling the wrong one
//! is a classic silent bug. Here the ISR variants take an [`Isr`] token, which
//! only an interrupt entry point constructs, and hand back a [`Woken`] (the
//! `pxHigherPriorityTaskWoken` flag) that the port's `yield_from_isr` consumes.
use vstd::prelude::*;

use core::marker::PhantomData;
use std::rc::Rc;

verus! {

/// Proof that the caller runs in interrupt context.
///
/// A port's interrupt entry constructs it and passes it down; task code never
/// holds one. It is `!Send`, so it cannot be stashed for a task to misuse.
#[derive(Debug, Copy)]
pub struct Isr {
    not_send: PhantomData<Rc<()>>,
}

impl Isr {
    /// The token. Only an interrupt entry point should call this.
    pub fn new() -> (r: Self) {
        Isr { not_send: PhantomData }
    }
}

impl Clone for Isr {
    fn clone(&self) -> (r: Self) {
        *self
    }
}

impl Default for Isr {
    fn default() -> (r: Self) {
        Self::new()
    }
}

/// `pxHigherPriorityTaskWoken`: whether an ISR-side call unblocked a task that
/// should run before the interrupted one. Accumulates across calls in one
/// interrupt and is consumed by the port's `yield_from_isr`.
#[derive(Debug, Clone, Copy, PartialEq, Eq, Hash)]
#[must_use]
pub struct Woken(bool);

impl View for Woken {
    /// Whether a yield is needed.
    type V = bool;

    closed spec fn view(&self) -> bool {
        self.0
    }
}

impl Woken {
    /// Two flags are the same exactly when their views agree.
    pub proof fn lemma_view_determines(a: Self, b: Self)
        requires
            a@ == b@,
        ensures
            a == b,
    {
    }

    /// Nothing woken yet.
    pub fn no() -> (w: Self)
        ensures
            w@ == false,
    {
        Woken(false)
    }

    /// A higher-priority task was woken.
    pub fn yes() -> (w: Self)
        ensures
            w@ == true,
    {
        Woken(true)
    }

    /// Whether a yield is needed.
    pub fn needed(self) -> (r: bool)
        ensures
            r == self@,
    {
        self.0
    }

    /// Fold another call's result in (`||` on the C flag).
    pub fn or(self, other: Self) -> (w: Self)
        ensures
            w@ == (self@ || other@),
    {
        Woken(self.0 || other.0)
    }
}

impl Default for Woken {
    /// Nothing woken yet: [`Woken::no`].
    fn default() -> (w: Self)
        ensures
            w@ == false,
    {
        Woken(false)
    }
}

} // verus!
