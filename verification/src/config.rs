//! `FreeRTOSConfig.h` as a type.
//!
//! Every geometry knob is an associated constant on [`Config`]; the kernel is
//! generic over it, so a wrong value is a compile error and a change is a
//! visible diff. [`DefaultConfig`] mirrors the upstream template
//! configuration value for value.
use vstd::prelude::*;

use crate::error::{Error, Result};
use crate::tick::{Bits32, Bits64, TickWidth};

verus! {

/// `pdMS_TO_TICKS(ms)` at `hz`: `ms * hz / 1000`, floored, and the width's
/// maximum `max` when that quotient exceeds it.
pub open spec fn ms_to_ticks_spec(ms: u64, hz: u32, max: u64) -> u64 {
    let ticks = (ms as int * hz as int) / 1000;
    if ticks <= max {
        ticks as u64
    } else {
        max
    }
}

/// `pdTICKS_TO_MS(ticks)` at `hz` (taken as 1 when zero): `ticks * 1000 / hz`,
/// floored, and `u64::MAX` when that quotient exceeds it.
pub open spec fn ticks_to_ms_spec(ticks: u64, hz: u32) -> u64 {
    let hz = if hz >= 1 {
        hz as int
    } else {
        1
    };
    let ms = (ticks as int * 1000) / hz;
    if ms <= u64::MAX {
        ms as u64
    } else {
        u64::MAX
    }
}

/// The kernel configuration, as constants a type carries.
///
/// Implement it on a unit struct; [`Config::validate`] is the checked form of
/// the `#error` lines in `FreeRTOS.h` and the kernel runs it before it starts.
pub trait Config {
    /// `configTICK_TYPE_WIDTH_IN_BITS`.
    type Tick: TickWidth;

    /// `configTICK_RATE_HZ`.
    const TICK_RATE_HZ: u32;

    /// `configINITIAL_TICK_COUNT`.
    const INITIAL_TICK_COUNT: u64 = 0;

    /// `configMAX_PRIORITIES`.
    const MAX_PRIORITIES: u8;

    /// `configMINIMAL_STACK_SIZE`, in words.
    const MINIMAL_STACK_SIZE: usize;

    /// `configMAX_TASK_NAME_LEN`, including the terminator the C kernel keeps.
    const MAX_TASK_NAME_LEN: usize;

    /// `configUSE_PREEMPTION`.
    const USE_PREEMPTION: bool = true;

    /// `configUSE_TIME_SLICING`.
    const USE_TIME_SLICING: bool = true;

    /// `configIDLE_SHOULD_YIELD`.
    const IDLE_SHOULD_YIELD: bool = true;

    /// `configUSE_TICK_HOOK`: whether the kernel calls the tick hook from
    /// inside `xTaskIncrementTick`.
    const USE_TICK_HOOK: bool = false;

    /// `configUSE_TIMERS`: whether the software timer daemon exists.
    const USE_TIMERS: bool = true;

    /// `sizeof( configMESSAGE_BUFFER_LENGTH_TYPE )`: how many bytes a message
    /// buffer spends on each message's length prefix.
    const MESSAGE_LENGTH_BYTES: usize = 4;

    /// `configTASK_NOTIFICATION_ARRAY_ENTRIES`.
    const NOTIFICATION_ARRAY_ENTRIES: usize = 1;

    /// `configNUM_THREAD_LOCAL_STORAGE_POINTERS`.
    const NUM_TLS_POINTERS: usize = 0;

    /// `configQUEUE_REGISTRY_SIZE`.
    const QUEUE_REGISTRY_SIZE: usize = 0;

    /// `configTIMER_TASK_PRIORITY`.
    const TIMER_TASK_PRIORITY: u8;

    /// `configTIMER_QUEUE_LENGTH`.
    const TIMER_QUEUE_LENGTH: usize = 10;

    /// `configTIMER_TASK_STACK_DEPTH`, in words.
    const TIMER_TASK_STACK_DEPTH: usize;

    /// `configCHECK_FOR_STACK_OVERFLOW`: 0 off, 1 the stack-pointer method,
    /// 2 the pattern method.
    const CHECK_FOR_STACK_OVERFLOW: u8 = 2;

    /// `configNUMBER_OF_CORES`.
    const NUMBER_OF_CORES: u8 = 1;

    /// `configEXPECTED_IDLE_TIME_BEFORE_SLEEP`, in ticks (tickless idle).
    const EXPECTED_IDLE_TIME_BEFORE_SLEEP: u64 = 2;

    /// `configTOTAL_HEAP_SIZE`, in bytes.
    const TOTAL_HEAP_SIZE: usize = 4096;

    /// Whether this configuration mirrors a C kernel that takes kernel objects
    /// from a heap. Objects always come from arenas here; the flag only says
    /// which C kernel a trace is to be compared with.
    const DYNAMIC_ALLOCATION: bool = false;

    /// How many tasks may exist at once, the idle and timer tasks included.
    const MAX_TASKS: usize = 16;

    /// How many queues, semaphores and mutexes may exist at once.
    const MAX_QUEUES: usize = 16;

    /// How many software timers may exist at once.
    const MAX_TIMERS: usize = 8;

    /// How many event groups may exist at once.
    const MAX_EVENT_GROUPS: usize = 4;

    /// How many stream and message buffers may exist at once.
    const MAX_STREAM_BUFFERS: usize = 4;

    /// The checks `FreeRTOS.h` makes with `#error`, as a value:
    /// [`Error::InvalidArgument`] when any of them fails.
    fn validate() -> (r: Result<()>)
        ensures
            r is Ok <==> {
                &&& Self::TICK_RATE_HZ > 0
                &&& Self::MAX_PRIORITIES >= 1
                &&& Self::TIMER_TASK_PRIORITY < Self::MAX_PRIORITIES
                &&& Self::MINIMAL_STACK_SIZE > 0
                &&& Self::TIMER_TASK_STACK_DEPTH >= Self::MINIMAL_STACK_SIZE
                &&& Self::MAX_TASK_NAME_LEN >= 1
                &&& Self::NOTIFICATION_ARRAY_ENTRIES >= 1
                &&& Self::NOTIFICATION_ARRAY_ENTRIES <= 4
                &&& Self::TIMER_QUEUE_LENGTH <= 32
                &&& Self::TIMER_QUEUE_LENGTH >= 1
                &&& Self::CHECK_FOR_STACK_OVERFLOW <= 2
                &&& Self::NUMBER_OF_CORES >= 1
                &&& Self::MAX_TASKS >= 2
                &&& Self::INITIAL_TICK_COUNT <= <Self::Tick as TickWidth>::MAX
                &&& Self::MAX_TASKS <= 0x7FFF
                &&& Self::MAX_QUEUES <= 0x7FFF
                &&& Self::MAX_TIMERS <= 0x7FFF
                &&& Self::MAX_EVENT_GROUPS <= 0x7FFF
                &&& Self::MAX_STREAM_BUFFERS <= 0x7FFF
            },
            r is Err ==> r == Err::<(), Error>(Error::InvalidArgument),
    {
        let ok = Self::TICK_RATE_HZ > 0 && Self::MAX_PRIORITIES >= 1 && Self::TIMER_TASK_PRIORITY
            < Self::MAX_PRIORITIES && Self::MINIMAL_STACK_SIZE > 0 && Self::TIMER_TASK_STACK_DEPTH
            >= Self::MINIMAL_STACK_SIZE && Self::MAX_TASK_NAME_LEN >= 1
            && Self::NOTIFICATION_ARRAY_ENTRIES >= 1 && Self::NOTIFICATION_ARRAY_ENTRIES <= 4
            && Self::TIMER_QUEUE_LENGTH <= 32 && Self::TIMER_QUEUE_LENGTH >= 1
            && Self::CHECK_FOR_STACK_OVERFLOW <= 2 && Self::NUMBER_OF_CORES >= 1
            && Self::MAX_TASKS >= 2 && Self::INITIAL_TICK_COUNT <= <Self::Tick as TickWidth>::MAX
            && Self::MAX_TASKS <= 0x7FFF && Self::MAX_QUEUES <= 0x7FFF && Self::MAX_TIMERS
            <= 0x7FFF && Self::MAX_EVENT_GROUPS <= 0x7FFF && Self::MAX_STREAM_BUFFERS <= 0x7FFF;
        if ok {
            Ok(())
        } else {
            Err(Error::InvalidArgument)
        }
    }

    /// `pdMS_TO_TICKS(ms)`: `ms * TICK_RATE_HZ / 1000`, floored, saturating at
    /// the tick width's maximum.
    fn ms_to_ticks(ms: u64) -> (r: u64)
        ensures
            r == ms_to_ticks_spec(ms, Self::TICK_RATE_HZ, <Self::Tick as TickWidth>::MAX),
    {
        let hz = Self::TICK_RATE_HZ as u128;
        let max = <Self::Tick as TickWidth>::MAX;
        let m = ms as u128;
        assert(m * hz <= 0xFFFF_FFFF_FFFF_FFFF * 0xFFFF_FFFF) by (nonlinear_arith)
            requires
                m <= 0xFFFF_FFFF_FFFF_FFFF,
                hz <= 0xFFFF_FFFF,
        ;
        let ticks = (m * hz) / 1000;
        if ticks <= max as u128 {
            ticks as u64
        } else {
            max
        }
    }

    /// `pdTICKS_TO_MS(ticks)`: `ticks * 1000 / TICK_RATE_HZ`, floored,
    /// saturating at `u64::MAX`.
    fn ticks_to_ms(ticks: u64) -> (r: u64)
        ensures
            r == ticks_to_ms_spec(ticks, Self::TICK_RATE_HZ),
    {
        let hz = if Self::TICK_RATE_HZ >= 1 {
            Self::TICK_RATE_HZ as u128
        } else {
            1
        };
        let ms = (ticks as u128 * 1000) / hz;
        if ms <= u64::MAX as u128 {
            ms as u64
        } else {
            u64::MAX
        }
    }
}

/// The upstream template configuration, value for value: 100 Hz, 5
/// priorities, 128-word stacks, 16-character names, 32-bit ticks, preemption
/// on, time slicing off, the timer task at the highest priority with a
/// 10-deep queue, stack overflow method 2, a 4 KiB heap.
#[derive(Debug, Clone, Copy, PartialEq, Eq, Hash, Default)]
pub struct DefaultConfig;

impl Config for DefaultConfig {
    type Tick = Bits32;

    const TICK_RATE_HZ: u32 = 100;

    const MAX_PRIORITIES: u8 = 5;

    const MINIMAL_STACK_SIZE: usize = 128;

    const MAX_TASK_NAME_LEN: usize = 16;

    const USE_TIME_SLICING: bool = false;

    const TIMER_TASK_PRIORITY: u8 = 4;

    const TIMER_TASK_STACK_DEPTH: usize = 128;
}

/// The `Posix_GCC` demo's configuration, which the C oracle harness uses:
/// 1000 Hz, 7 priorities, 12-character names, a 20-deep timer queue, a
/// 20-entry queue registry, time slicing on, stack overflow checking off, a
/// 65 KiB heap, and the host's 64-bit tick.
#[derive(Debug, Clone, Copy, PartialEq, Eq, Hash, Default)]
pub struct PosixDemoConfig;

impl Config for PosixDemoConfig {
    type Tick = Bits64;

    const TICK_RATE_HZ: u32 = 1000;

    const DYNAMIC_ALLOCATION: bool = true;

    const MAX_PRIORITIES: u8 = 7;

    const MINIMAL_STACK_SIZE: usize = 128;

    const MAX_TASK_NAME_LEN: usize = 12;

    const QUEUE_REGISTRY_SIZE: usize = 20;

    const TIMER_TASK_PRIORITY: u8 = 6;

    const TIMER_QUEUE_LENGTH: usize = 20;

    const TIMER_TASK_STACK_DEPTH: usize = 256;

    const CHECK_FOR_STACK_OVERFLOW: u8 = 0;

    const USE_TICK_HOOK: bool = true;

    const NOTIFICATION_ARRAY_ENTRIES: usize = 3;

    const MESSAGE_LENGTH_BYTES: usize = 8;

    const TOTAL_HEAP_SIZE: usize = 66560;

    const MAX_TASKS: usize = 64;

    const MAX_QUEUES: usize = 64;

    const MAX_TIMERS: usize = 32;

    const MAX_EVENT_GROUPS: usize = 8;

    const MAX_STREAM_BUFFERS: usize = 16;
}

/// What [`DefaultConfig`] sets: 100 Hz, 32-bit ticks, 5 priorities, 128-word
/// stacks, 16-character names, time slicing off, the timer task at priority
/// 4 with a 128-word stack.
pub proof fn lemma_default_config()
    ensures
        DefaultConfig::TICK_RATE_HZ == 100,
        <<DefaultConfig as Config>::Tick as TickWidth>::MAX == 0xFFFF_FFFF,
        <<DefaultConfig as Config>::Tick as TickWidth>::BITS == 32,
        DefaultConfig::MAX_PRIORITIES == 5,
        DefaultConfig::MINIMAL_STACK_SIZE == 128,
        DefaultConfig::MAX_TASK_NAME_LEN == 16,
        !DefaultConfig::USE_TIME_SLICING,
        DefaultConfig::TIMER_TASK_PRIORITY == 4,
        DefaultConfig::TIMER_TASK_STACK_DEPTH == 128,
        DefaultConfig::TIMER_QUEUE_LENGTH == 10,
        DefaultConfig::CHECK_FOR_STACK_OVERFLOW == 2,
        DefaultConfig::TOTAL_HEAP_SIZE == 4096,
{
    crate::tick::lemma_widths();
}

/// What [`PosixDemoConfig`] sets: 1000 Hz, 64-bit ticks, 7 priorities,
/// 12-character names, the timer task at priority 6 with a 256-word stack and
/// a 20-deep queue, stack overflow checking off.
pub proof fn lemma_posix_demo_config()
    ensures
        PosixDemoConfig::TICK_RATE_HZ == 1000,
        <<PosixDemoConfig as Config>::Tick as TickWidth>::MAX == 0xFFFF_FFFF_FFFF_FFFF,
        <<PosixDemoConfig as Config>::Tick as TickWidth>::BITS == 64,
        PosixDemoConfig::MAX_PRIORITIES == 7,
        PosixDemoConfig::MINIMAL_STACK_SIZE == 128,
        PosixDemoConfig::MAX_TASK_NAME_LEN == 12,
        PosixDemoConfig::TIMER_TASK_PRIORITY == 6,
        PosixDemoConfig::TIMER_TASK_STACK_DEPTH == 256,
        PosixDemoConfig::TIMER_QUEUE_LENGTH == 20,
        PosixDemoConfig::CHECK_FOR_STACK_OVERFLOW == 0,
        PosixDemoConfig::MAX_TASKS == 64,
{
    crate::tick::lemma_widths();
}

} // verus!
