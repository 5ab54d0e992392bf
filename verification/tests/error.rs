use rusty_rtos_core::error::Error;

#[test]
fn codes_match_the_c_kernel() {
    assert_eq!(Error::NoMemory.pd_code(), -1);
    assert_eq!(Error::SchedulerSuspended.pd_code(), -4);
    assert_eq!(Error::Timeout.pd_code(), 0);
    assert_eq!(Error::Gone.pd_code(), 0);
}

#[test]
fn names_are_unique() {
    let all = [
        Error::Timeout,
        Error::Full,
        Error::Empty,
        Error::NoMemory,
        Error::Gone,
        Error::InvalidHandle,
        Error::InvalidPriority,
        Error::InvalidArgument,
        Error::InIsr,
        Error::NotInIsr,
        Error::SchedulerSuspended,
        Error::Busy,
        Error::NotActive,
        Error::Unsupported,
    ];
    for (i, a) in all.iter().enumerate() {
        for b in all.iter().skip(i.wrapping_add(1)) {
            assert_ne!(a.name(), b.name());
        }
    }
    assert_eq!(core::mem::size_of::<Error>(), 1);
}

#[test]
fn names_are_the_short_stable_ones() {
    assert_eq!(Error::Timeout.name(), "timeout");
    assert_eq!(Error::NoMemory.name(), "no-memory");
    assert_eq!(Error::SchedulerSuspended.name(), "scheduler-suspended");
    assert_eq!(Error::NotActive.name(), "not-active");
}

#[test]
fn an_error_prints_as_its_name() {
    assert_eq!(Error::Busy.to_string(), "busy");
    assert_eq!(Error::NoMemory.to_string(), Error::NoMemory.name());
}
