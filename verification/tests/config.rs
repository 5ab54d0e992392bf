use rusty_rtos_core::config::{Config, DefaultConfig, PosixDemoConfig};
use rusty_rtos_core::error::Error;
use rusty_rtos_core::tick::{Bits32, TickWidth};

#[test]
fn the_default_profile_is_the_upstream_template_value_for_value() {
    assert_eq!(DefaultConfig::TICK_RATE_HZ, 100);
    assert_eq!(DefaultConfig::MAX_PRIORITIES, 5);
    assert_eq!(DefaultConfig::MINIMAL_STACK_SIZE, 128);
    assert_eq!(DefaultConfig::MAX_TASK_NAME_LEN, 16);
    assert!(DefaultConfig::USE_PREEMPTION);
    assert!(!DefaultConfig::USE_TIME_SLICING);
    assert!(DefaultConfig::IDLE_SHOULD_YIELD);
    assert_eq!(DefaultConfig::NOTIFICATION_ARRAY_ENTRIES, 1);
    assert_eq!(DefaultConfig::QUEUE_REGISTRY_SIZE, 0);
    assert_eq!(DefaultConfig::NUM_TLS_POINTERS, 0);
    assert_eq!(DefaultConfig::TIMER_TASK_PRIORITY, 4);
    assert_eq!(DefaultConfig::TIMER_QUEUE_LENGTH, 10);
    assert_eq!(DefaultConfig::TIMER_TASK_STACK_DEPTH, 128);
    assert_eq!(DefaultConfig::CHECK_FOR_STACK_OVERFLOW, 2);
    assert_eq!(DefaultConfig::TOTAL_HEAP_SIZE, 4096);
    assert_eq!(<DefaultConfig as Config>::Tick::BITS, 32);
    DefaultConfig::validate().unwrap();
    PosixDemoConfig::validate().unwrap();
}

#[test]
fn tick_conversions_floor_like_the_c_macros() {
    assert_eq!(DefaultConfig::ms_to_ticks(15), 1);
    assert_eq!(DefaultConfig::ms_to_ticks(20), 2);
    assert_eq!(DefaultConfig::ms_to_ticks(0), 0);
    assert_eq!(PosixDemoConfig::ms_to_ticks(7), 7);
    assert_eq!(DefaultConfig::ticks_to_ms(3), 30);
    assert_eq!(DefaultConfig::ms_to_ticks(u64::MAX), u64::from(u32::MAX));
    assert_eq!(DefaultConfig::ticks_to_ms(u64::MAX), u64::MAX);
}

struct Broken;
impl Config for Broken {
    type Tick = Bits32;
    const TICK_RATE_HZ: u32 = 100;
    const MAX_PRIORITIES: u8 = 3;
    const MINIMAL_STACK_SIZE: usize = 64;
    const MAX_TASK_NAME_LEN: usize = 8;
    const TIMER_TASK_PRIORITY: u8 = 3;
    const TIMER_TASK_STACK_DEPTH: usize = 64;
}

#[test]
fn validate_refuses_what_freertos_h_errors_on() {
    assert_eq!(Broken::validate(), Err(Error::InvalidArgument));
}

struct ZeroHz;
impl Config for ZeroHz {
    type Tick = Bits32;
    const TICK_RATE_HZ: u32 = 0;
    const MAX_PRIORITIES: u8 = 3;
    const MINIMAL_STACK_SIZE: usize = 64;
    const MAX_TASK_NAME_LEN: usize = 8;
    const TIMER_TASK_PRIORITY: u8 = 2;
    const TIMER_TASK_STACK_DEPTH: usize = 64;
}

/// A zero tick rate is refused, and the tick-to-millisecond conversion takes
/// it as one tick per second rather than dividing by zero.
#[test]
fn a_zero_tick_rate_is_invalid_and_converts_as_one_hertz() {
    assert_eq!(ZeroHz::validate(), Err(Error::InvalidArgument));
    assert_eq!(ZeroHz::ticks_to_ms(3), 3000);
    assert_eq!(ZeroHz::ms_to_ticks(12345), 0);
}

/// At a thousand hertz a millisecond is a tick, all the way up: the quotient
/// is taken over unbounded integers, so a large count converts exactly rather
/// than saturating where the intermediate product would overflow.
#[test]
fn the_posix_profile_converts_at_a_thousand_hertz() {
    assert_eq!(PosixDemoConfig::ms_to_ticks(1_000_000), 1_000_000);
    assert_eq!(PosixDemoConfig::ms_to_ticks(u64::MAX), u64::MAX);
    assert_eq!(PosixDemoConfig::ms_to_ticks(1 << 62), 1 << 62);
    assert_eq!(PosixDemoConfig::ticks_to_ms(250), 250);
    assert_eq!(PosixDemoConfig::ticks_to_ms(u64::MAX / 1000 + 1), u64::MAX / 1000 + 1);
    assert_eq!(PosixDemoConfig::ticks_to_ms(u64::MAX), u64::MAX);
}

/// The conversions floor and saturate at the true quotient, not at an
/// overflowing intermediate product.
#[test]
fn conversions_saturate_only_when_the_quotient_does() {
    assert_eq!(DefaultConfig::ticks_to_ms(1 << 60), 11_529_215_046_068_469_760);
    assert_eq!(DefaultConfig::ticks_to_ms(u64::MAX / 10), u64::MAX / 10 * 10);
    assert_eq!(DefaultConfig::ticks_to_ms(u64::MAX / 10 + 1), u64::MAX);
    assert_eq!(DefaultConfig::ms_to_ticks(u64::MAX / 100 + 1), u64::from(u32::MAX));
}
