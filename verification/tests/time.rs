use rusty_rtos_core::config::{DefaultConfig, PosixDemoConfig};
use rusty_rtos_core::time::{Duration, Timeout};

#[test]
fn durations_convert_like_pd_ms_to_ticks() {
    assert_eq!(Duration::millis(10).to_ticks::<DefaultConfig>(), 1);
    assert_eq!(Duration::millis(15).to_ticks::<DefaultConfig>(), 1);
    assert_eq!(Duration::millis(250).to_ticks::<PosixDemoConfig>(), 250);
    assert_eq!(Duration::micros(999).to_ticks::<PosixDemoConfig>(), 0);
    assert_eq!(Duration::secs(1).to_ticks::<DefaultConfig>(), 100);
    assert_eq!(
        Duration::secs(u64::MAX).to_ticks::<DefaultConfig>(),
        u64::from(u32::MAX)
    );
    assert_eq!(Duration::millis(1).as_micros(), 1000);
    assert_eq!(Duration::micros(2500).as_millis(), 2);
}

#[test]
fn timeouts_round_trip_the_c_convention() {
    assert_eq!(Timeout::NoBlock.to_ticks::<DefaultConfig>(), 0);
    assert_eq!(
        Timeout::Forever.to_ticks::<DefaultConfig>(),
        u64::from(u32::MAX)
    );
    assert_eq!(Timeout::Ticks(5).to_ticks::<DefaultConfig>(), 5);
    assert_eq!(Timeout::from_ticks::<DefaultConfig>(0), Timeout::NoBlock);
    assert_eq!(
        Timeout::from_ticks::<DefaultConfig>(u64::from(u32::MAX)),
        Timeout::Forever
    );
    assert_eq!(
        Timeout::from_ticks::<DefaultConfig>(u64::MAX),
        Timeout::Forever
    );
    assert_eq!(Timeout::from_ticks::<DefaultConfig>(7), Timeout::Ticks(7));
    assert_eq!(
        Timeout::after::<DefaultConfig>(Duration::millis(5)),
        Timeout::NoBlock
    );
    assert!(Timeout::Ticks(1).blocks());
    assert!(!Timeout::NoBlock.blocks());
}

/// The microsecond remainder is carried, not dropped: 1.5 s at 100 Hz is 150 ticks.
#[test]
fn a_fractional_second_is_carried_into_the_ticks() {
    assert_eq!(Duration::micros(1_500_000).to_ticks::<DefaultConfig>(), 150);
    assert_eq!(Duration::micros(1_009_999).to_ticks::<DefaultConfig>(), 100);
    assert_eq!(Duration::micros(1_010_000).to_ticks::<DefaultConfig>(), 101);
    assert_eq!(Duration::millis(u64::MAX).as_micros(), u64::MAX);
    assert_eq!(Duration::zero().to_ticks::<PosixDemoConfig>(), 0);
    assert_eq!(Timeout::Ticks(u64::MAX).to_ticks::<DefaultConfig>(), u64::from(u32::MAX));
}

#[test]
fn the_defaults_are_zero_and_no_block() {
    assert_eq!(Duration::default(), Duration::zero());
    assert_eq!(Timeout::default(), Timeout::NoBlock);
}
