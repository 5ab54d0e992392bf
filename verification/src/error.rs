//! One `Copy` error for the whole family.
//!
//! FreeRTOS answers with `pdPASS` / `pdFAIL` and a handful of `err*` codes;
//! this crate answers with a `Result` whose error is this enum. It carries no
//! `String`, so it crosses `no_std` and package boundaries without conversion
//! chains, and [`Error::pd_code`] maps it back onto the C return codes.
use vstd::prelude::*;

use vstd::string::StringExecFns;

verus! {

/// `Result` with the family's error.
pub type Result<T> = core::result::Result<T, Error>;

/// Why a kernel operation did not happen.
#[derive(Debug, Clone, Copy, PartialEq, Eq, Hash)]
#[non_exhaustive]
pub enum Error {
    /// The wait ran out before the condition held.
    Timeout,
    /// A queue, buffer or set has no room for the item.
    Full,
    /// A queue or buffer has nothing to take.
    Empty,
    /// No slot, heap block or stack could be found
    /// (`errCOULD_NOT_ALLOCATE_REQUIRED_MEMORY`).
    NoMemory,
    /// The handle names an object that no longer exists (a generation mismatch).
    Gone,
    /// The handle never named an object (out of range or the null handle).
    InvalidHandle,
    /// A priority at or above the configured maximum.
    InvalidPriority,
    /// A size, count or index outside what the configuration allows.
    InvalidArgument,
    /// The call is not allowed from an interrupt.
    InIsr,
    /// The call is only allowed from an interrupt.
    NotInIsr,
    /// The scheduler is suspended and the call would block (`errQUEUE_BLOCKED`).
    SchedulerSuspended,
    /// The object is in use in a way that refuses the operation.
    Busy,
    /// The object is not in the state the operation needs.
    NotActive,
    /// The kernel was built without the subsystem.
    Unsupported,
}

impl Error {
    /// The C kernel's return code for this error: `errCOULD_NOT_ALLOCATE_REQUIRED_MEMORY`
    /// is `-1`, `errQUEUE_BLOCKED` is `-4`, and everything else is `pdFAIL` (`0`).
    pub fn pd_code(self) -> (code: i32)
        ensures
            code == (match self {
                Error::NoMemory => -1i32,
                Error::SchedulerSuspended => -4i32,
                _ => 0i32,
            }),
    {
        match self {
            Error::NoMemory => -1,
            Error::SchedulerSuspended => -4,
            _ => 0,
        }
    }

    /// The short, stable name of each error, for logs and the trace sink.
    pub open spec fn spec_name(self) -> &'static str {
        match self {
            Error::Timeout => "timeout",
            Error::Full => "full",
            Error::Empty => "empty",
            Error::NoMemory => "no-memory",
            Error::Gone => "gone",
            Error::InvalidHandle => "invalid-handle",
            Error::InvalidPriority => "invalid-priority",
            Error::InvalidArgument => "invalid-argument",
            Error::InIsr => "in-isr",
            Error::NotInIsr => "not-in-isr",
            Error::SchedulerSuspended => "scheduler-suspended",
            Error::Busy => "busy",
            Error::NotActive => "not-active",
            Error::Unsupported => "unsupported",
        }
    }

    /// A short, stable name for logs and the trace sink.
    pub fn name(self) -> (name: &'static str)
        ensures
            name == self.spec_name(),
    {
        match self {
            Error::Timeout => "timeout",
            Error::Full => "full",
            Error::Empty => "empty",
            Error::NoMemory => "no-memory",
            Error::Gone => "gone",
            Error::InvalidHandle => "invalid-handle",
            Error::InvalidPriority => "invalid-priority",
            Error::InvalidArgument => "invalid-argument",
            Error::InIsr => "in-isr",
            Error::NotInIsr => "not-in-isr",
            Error::SchedulerSuspended => "scheduler-suspended",
            Error::Busy => "busy",
            Error::NotActive => "not-active",
            Error::Unsupported => "unsupported",
        }
    }

    /// The error as text: its name.
    pub fn to_string(self) -> (r: String)
        ensures
            r@ == self.spec_name()@,
    {
        String::from_str(self.name())
    }

    /// No two errors share a name, so a log line names the error exactly.
    pub proof fn lemma_names_are_unique(a: Error, b: Error)
        requires
            a != b,
        ensures
            a.spec_name()@ != b.spec_name()@,
    {
        reveal_strlit("timeout");
        reveal_strlit("full");
        reveal_strlit("empty");
        reveal_strlit("no-memory");
        reveal_strlit("gone");
        reveal_strlit("invalid-handle");
        reveal_strlit("invalid-priority");
        reveal_strlit("invalid-argument");
        reveal_strlit("in-isr");
        reveal_strlit("not-in-isr");
        reveal_strlit("scheduler-suspended");
        reveal_strlit("busy");
        reveal_strlit("not-active");
        reveal_strlit("unsupported");
        let sa = a.spec_name()@;
        let sb = b.spec_name()@;
        assert(sa.len() != sb.len() || sa[0] != sb[0] || sa[4] != sb[4] || sa[8] != sb[8]);
    }
}

} // verus!
