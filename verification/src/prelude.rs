//! The names a kernel, a port or a firmware wants in scope.
pub use crate::arena::Arena;
pub use crate::config::{Config, DefaultConfig};
pub use crate::error::{Error, Result};
pub use crate::handle::{
    EventGroupHandle, Handle, QueueHandle, StreamBufferHandle, TaskHandle, TimerHandle,
};
pub use crate::hooks::{Hooks, NoHooks};
pub use crate::isr::{Isr, Woken};
pub use crate::list::{ListId, Lists};
pub use crate::port::Port;
pub use crate::priority::Priority;
pub use crate::tick::{Bits16, Bits32, Bits64, Tick, TickWidth};
pub use crate::time::{Duration, Timeout};
pub use crate::trace::{Event, NoTrace, Trace};
