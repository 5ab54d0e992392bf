//! The application hooks as a trait.
//!
//! `vApplicationIdleHook`, `vApplicationTickHook`,
//! `vApplicationMallocFailedHook`, `vApplicationStackOverflowHook`,
//! `vApplicationDaemonTaskStartupHook` and the sleep-processing macros are
//! link-time symbols in C. Here they are methods with no-op defaults on a type
//! the kernel is generic over, so a firmware implements the ones it wants.
use vstd::prelude::*;

use crate::handle::TaskHandle;

verus! {

/// The application's hooks. Every method has a no-op default.
pub trait Hooks {
    /// `vApplicationIdleHook`: called by the idle task on every pass.
    fn idle(&self) {
    }

    /// `vApplicationPassiveIdleHook` (SMP): the passive idle tasks' hook.
    fn passive_idle(&self) {
    }

    /// `vApplicationTickHook`: called from the tick interrupt.
    fn tick(&self) {
    }

    /// `vApplicationMallocFailedHook`: an allocation through the heap seam failed.
    fn malloc_failed(&self) {
    }

    /// `vApplicationStackOverflowHook`: the named task overflowed its stack.
    fn stack_overflow(&self, task: TaskHandle, name: &str) {
    }

    /// `vApplicationDaemonTaskStartupHook`: the timer daemon task's first run.
    fn daemon_startup(&self) {
    }

    /// `configPRE_SLEEP_PROCESSING(x)`: before a tickless sleep of the given
    /// expected length; may shorten it by returning a smaller value. The
    /// default passes the length through.
    fn pre_sleep(&self, expected_idle_ticks: u64) -> (r: u64)
        default_ensures
            r == expected_idle_ticks,
    {
        expected_idle_ticks
    }

    /// `configPOST_SLEEP_PROCESSING(x)`: after a tickless sleep.
    fn post_sleep(&self, expected_idle_ticks: u64) {
    }

    /// `configPRE_SUPPRESS_TICKS_AND_SLEEP_PROCESSING(x)`: may veto a tickless
    /// sleep by returning `0`. The default passes the length through.
    fn pre_suppress_ticks(&self, expected_idle_ticks: u64) -> (r: u64)
        default_ensures
            r == expected_idle_ticks,
    {
        expected_idle_ticks
    }
}

/// No hooks at all: every method is the default no-op.
#[derive(Debug, Clone, Copy, PartialEq, Eq, Hash, Default)]
pub struct NoHooks;

impl Hooks for NoHooks {

}

/// `vApplicationTickHook`, as something that can reach the kernel.
///
/// The hook is `Copy` and taken by value because the kernel holds it: the
/// kernel copies it out, runs it with itself borrowed mutably, and stores what
/// comes back. `K` is the kernel type.
pub trait TickHook<K>: Copy {
    /// Run one tick's worth of interrupt-context work.
    fn tick(self, kernel: &mut K) -> Self;
}

/// `configUSE_TICK_HOOK 0`: no tick hook.
#[derive(Debug, Clone, Copy, PartialEq, Eq, Hash, Default)]
pub struct NoTickHook;

impl<K> TickHook<K> for NoTickHook {
    /// Returns itself and leaves the kernel untouched.
    fn tick(self, kernel: &mut K) -> (r: Self)
        ensures
            r == self,
            *final(kernel) == *old(kernel),
    {
        self
    }
}

} // verus!
