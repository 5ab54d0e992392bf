//! The shared vocabulary of an RTOS kernel remade from FreeRTOS: ticks,
//! priorities, generational handles, an index-linked `list.c`, the
//! configuration as a trait, and the seams a kernel is generic over.
//!
//! The laws it encodes:
//!
//! 1. **Handles are indices, never pointers.** Every kernel object lives in
//!    an [`arena::Arena`]; a [`handle::Handle`] is a generational index and a
//!    stale one is [`Error::Gone`], not a use-after-free.
//! 2. **The list is index-linked.** [`list::ListsOf`] remakes FreeRTOS's
//!    `list.c` (`vListInsert`, `vListInsertEnd`, `uxListRemove`, the
//!    round-robin cursor) over indices.
//! 3. **Time is a value.** [`tick::Tick`] is a count whose width is a type
//!    parameter mirroring `configTICK_TYPE_WIDTH_IN_BITS`.
//! 4. **One `Copy` error.** [`Error`] maps onto the C kernel's return codes.
//! 5. **The config is a type.** [`config::Config`] is `FreeRTOSConfig.h` as
//!    associated constants.
//! 6. **The seams are traits.** [`port::Port`], [`trace::Trace`] and
//!    [`hooks::Hooks`] are how a kernel touches a CPU, an observer or the
//!    application.
//! 7. **The ISR side is a type.** [`isr::Isr`] is the token a `*FromISR`
//!    variant demands.
use vstd::prelude::*;

pub mod arena;
pub mod config;
pub mod error;
pub mod handle;
pub mod hooks;
pub mod isr;
pub mod list;
pub mod port;
pub mod prelude;
pub mod priority;
pub mod tick;
pub mod text;
pub mod time;
pub mod trace;

pub use error::{Error, Result};

verus! {

/// Crate version, for manifests and logs.
pub const VERSION: &'static str = "0.1.0";

/// The version of every byte format this family emits (the trace line
/// format, the C ABI struct layouts). Readers refuse a version they do not know.
pub const FORMAT_VERSION: u16 = 1;

} // verus!
