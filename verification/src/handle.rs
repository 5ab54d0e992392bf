//! Generational handles: the family's answer to `TaskHandle_t` and friends.
//!
//! A FreeRTOS handle is a pointer to a control block; after `vTaskDelete` it
//! dangles. Here a handle is an index into an [`crate::arena::Arena`] plus the
//! generation of the slot when the object was created. Reusing the slot bumps
//! the generation, so a stale handle stops resolving instead of aliasing a
//! new object.
//!
//! The kind of object is a type parameter, so a `QueueHandle` cannot be passed
//! where a `TaskHandle` is expected.
use vstd::prelude::*;

use core::marker::PhantomData;

use crate::error::{Error, Result};
use crate::text::{decimal, push_decimal};
use vstd::string::StringExecFns;

verus! {

/// The kinds of kernel object a handle can name.
pub trait Kind: Copy + Clone + core::fmt::Debug + PartialEq + Eq {
    /// A short name for the trace sink ("task", "queue", ...).
    const NAME: &'static str;
}

/// A task.
#[derive(Debug, Clone, Copy, PartialEq, Eq, Hash)]
pub struct Task;

/// A queue, semaphore or mutex (all queues in the C kernel, and here).
#[derive(Debug, Clone, Copy, PartialEq, Eq, Hash)]
pub struct Queue;

/// A software timer.
#[derive(Debug, Clone, Copy, PartialEq, Eq, Hash)]
pub struct Timer;

/// An event group.
#[derive(Debug, Clone, Copy, PartialEq, Eq, Hash)]
pub struct EventGroup;

/// A stream or message buffer.
#[derive(Debug, Clone, Copy, PartialEq, Eq, Hash)]
pub struct StreamBuffer;

impl Kind for Task {
    const NAME: &'static str = "task";
}

impl Kind for Queue {
    const NAME: &'static str = "queue";
}

impl Kind for Timer {
    const NAME: &'static str = "timer";
}

impl Kind for EventGroup {
    const NAME: &'static str = "event-group";
}

impl Kind for StreamBuffer {
    const NAME: &'static str = "stream-buffer";
}

/// A generational index naming one object of kind `K`.
///
/// `index` is the arena slot (at most [`Handle::MAX_INDEX`]); `generation` is
/// the slot's generation at creation, and is never zero for a live handle:
/// generation 0 is the null handle, the C kernel's `NULL`.
#[derive(Debug, Copy, PartialEq, Eq, Hash)]
pub struct Handle<K: Kind> {
    index: u16,
    generation: u16,
    kind: PhantomData<K>,
}

/// `TaskHandle_t`.
pub type TaskHandle = Handle<Task>;

/// `QueueHandle_t` / `SemaphoreHandle_t`.
pub type QueueHandle = Handle<Queue>;

/// `TimerHandle_t`.
pub type TimerHandle = Handle<Timer>;

/// `EventGroupHandle_t`.
pub type EventGroupHandle = Handle<EventGroup>;

/// `StreamBufferHandle_t` / `MessageBufferHandle_t`.
pub type StreamBufferHandle = Handle<StreamBuffer>;

impl<K: Kind> View for Handle<K> {
    /// The slot index and the generation.
    type V = (u16, u16);

    closed spec fn view(&self) -> (u16, u16) {
        (self.index, self.generation)
    }
}

/// The C-ABI form of a handle: generation in the high half, index in the low half.
pub open spec fn raw_of(index: u16, generation: u16) -> u32 {
    (generation as int * 0x10000 + index as int) as u32
}

impl<K: Kind> Handle<K> {
    /// The largest slot index a handle can name (the arena capacity bound).
    pub const MAX_INDEX: u16 = 0xFFFE;

    /// Two handles of one kind are the same handle exactly when they name the
    /// same slot at the same generation.
    pub proof fn lemma_view_determines(a: Self, b: Self)
        requires
            a@ == b@,
        ensures
            a == b,
    {
    }

    /// The null handle: names nothing, and an arena answers it with
    /// [`Error::InvalidHandle`]. What `NULL` means to `xTaskGetHandle`.
    pub fn null() -> (h: Self)
        ensures
            h@ == (0u16, 0u16),
    {
        Handle { index: 0, generation: 0, kind: PhantomData }
    }

    /// A handle for `index` at `generation`. The arena is the only intended
    /// caller; a generation of zero yields the null handle.
    pub fn from_parts(index: u16, generation: u16) -> (h: Self)
        ensures
            h@ == (index, generation),
    {
        Handle { index, generation, kind: PhantomData }
    }

    /// The arena slot this handle names.
    pub fn index(self) -> (r: u16)
        ensures
            r == self@.0,
    {
        self.index
    }

    /// The slot generation this handle was minted at (zero for the null handle).
    pub fn generation(self) -> (r: u16)
        ensures
            r == self@.1,
    {
        self.generation
    }

    /// Whether this is the null handle.
    pub fn is_null(self) -> (r: bool)
        ensures
            r == (self@.1 == 0),
    {
        self.generation == 0
    }

    /// The handle as one `u32` for the C ABI: generation in the high half,
    /// index in the low half. The null handle is `0`, exactly `NULL`.
    pub fn to_raw(self) -> (r: u32)
        ensures
            r == raw_of(self@.0, self@.1),
            r as int == self@.1 as int * 0x10000 + self@.0 as int,
    {
        let g = self.generation as u32;
        let i = self.index as u32;
        assert(((g << 16u32) | i) == g * 0x10000 + i) by (bit_vector)
            requires
                g < 0x10000,
                i < 0x10000,
        ;
        (g << 16u32) | i
    }

    /// A handle from its C-ABI form. Never fails: zero is the null handle,
    /// anything else is checked by the arena it is presented to.
    pub fn from_raw(raw: u32) -> (h: Self)
        ensures
            h@.0 as int == raw as int % 0x10000,
            h@.1 as int == raw as int / 0x10000,
            raw_of(h@.0, h@.1) == raw,
    {
        let index = (raw & 0xFFFF) as u16;
        let generation = (raw >> 16u32) as u16;
        assert((raw & 0xFFFF) == raw % 0x10000 && (raw >> 16u32) == raw / 0x10000)
            by (bit_vector);
        Self::from_parts(index, generation)
    }

    /// This handle, or [`Error::InvalidHandle`] if it is null.
    pub fn non_null(self) -> (r: Result<Self>)
        ensures
            self@.1 == 0 ==> r == Err::<Self, Error>(Error::InvalidHandle),
            self@.1 != 0 ==> r == Ok::<Self, Error>(self),
    {
        if self.is_null() {
            Err(Error::InvalidHandle)
        } else {
            Ok(self)
        }
    }

    /// The handle as text: the kind's name, then `:null` for the null handle
    /// and `:index@generation` for any other (`"task:7@3"`).
    pub fn to_string(self) -> (r: String)
        ensures
            r@ == if self@.1 == 0 {
                K::NAME@ + ":null"@
            } else {
                K::NAME@ + ":"@ + decimal(self@.0 as nat) + "@"@ + decimal(self@.1 as nat)
            },
    {
        let mut s = String::from_str(K::NAME);
        if self.is_null() {
            s.append(":null");
        } else {
            s.append(":");
            push_decimal(&mut s, self.index as u64);
            s.append("@");
            push_decimal(&mut s, self.generation as u64);
        }
        s
    }

    /// The raw form is a faithful encoding: decoding an encoded handle gives
    /// the same handle back, and encoding a decoded number gives the number.
    pub proof fn lemma_raw_round_trip(h: Self, raw: u32)
        ensures
            raw_of(h@.0, h@.1) as int % 0x10000 == h@.0 as int,
            raw_of(h@.0, h@.1) as int / 0x10000 == h@.1 as int,
            raw_of((raw as int % 0x10000) as u16, (raw as int / 0x10000) as u16) == raw,
            raw_of(h@.0, h@.1) == 0 <==> h@ == (0u16, 0u16),
    {
        let i = h@.0 as int;
        let g = h@.1 as int;
        vstd::arithmetic::div_mod::lemma_fundamental_div_mod_converse(g * 0x10000 + i, 0x10000, g, i);
        vstd::arithmetic::div_mod::lemma_fundamental_div_mod(raw as int, 0x10000);
    }
}

impl<K: Kind> Clone for Handle<K> {
    fn clone(&self) -> (h: Self)
        ensures
            h == *self,
    {
        *self
    }
}

impl<K: Kind> Default for Handle<K> {
    /// The null handle.
    fn default() -> (h: Self)
        ensures
            h@ == (0u16, 0u16),
    {
        Self::null()
    }
}

} // verus!
