//! The Port seam: the only way the kernel touches a CPU.
//!
//! A FreeRTOS port is `portmacro.h` plus `port.c`: critical sections, the
//! yield, the tick source, the first-task start and the context switch. Here
//! the logic of those is a trait the kernel is generic over; the machine code
//! lives in the architecture's port.
use vstd::prelude::*;

use crate::isr::Woken;

verus! {

/// What a port provides to the kernel.
pub trait Port {
    /// `portYIELD()`: request a context switch at the next opportunity.
    fn yield_now(&self);

    /// `portYIELD_FROM_ISR(x)`: switch on the way out of the interrupt if a
    /// higher-priority task was woken.
    fn yield_from_isr(&self, woken: Woken);

    /// `portENTER_CRITICAL()`: mask interrupts, counting nesting.
    fn enter_critical(&self);

    /// `portEXIT_CRITICAL()`: unmask when the nesting count reaches zero.
    fn exit_critical(&self);

    /// `portSET_INTERRUPT_MASK_FROM_ISR()`: mask, returning the previous mask.
    fn set_interrupt_mask_from_isr(&self) -> u32;

    /// `portCLEAR_INTERRUPT_MASK_FROM_ISR(x)`.
    fn clear_interrupt_mask_from_isr(&self, saved: u32);

    /// Whether the caller is in interrupt context.
    fn in_isr(&self) -> bool;

    /// `portGET_CORE_ID()`; `0` on a single core.
    fn core_id(&self) -> (r: u8)
        default_ensures
            r == 0,
    {
        0
    }

    /// The port's idle behaviour: wait for the next interrupt.
    fn idle(&self) {
    }

    /// `portSUPPRESS_TICKS_AND_SLEEP(x)` for tickless idle; the default is the
    /// C default, a no-op that keeps the tick running.
    fn suppress_ticks_and_sleep(&self, expected_idle_ticks: u64) {
    }
}

} // verus!
