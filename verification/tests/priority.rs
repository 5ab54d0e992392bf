use rusty_rtos_core::error::Error;
use rusty_rtos_core::priority::Priority;

#[test]
fn bounded_by_the_configuration() {
    assert_eq!(Priority::new(0, 5).unwrap(), Priority::idle());
    assert_eq!(Priority::new(4, 5).unwrap().get(), 4);
    assert_eq!(Priority::new(5, 5), Err(Error::InvalidPriority));
    assert_eq!(Priority::new(0, 0), Err(Error::InvalidPriority));
    assert_eq!(Priority::highest(5).unwrap().get(), 4);
    assert_eq!(Priority::highest(0), Err(Error::InvalidArgument));
}

#[test]
fn orders_the_way_the_scheduler_needs() {
    let low = Priority::new(1, 5).unwrap();
    let high = Priority::new(3, 5).unwrap();
    assert!(high > low);
    assert!(Priority::idle().is_idle());
    assert!(!low.is_idle());
}

#[test]
fn a_priority_prints_as_its_number() {
    assert_eq!(Priority::new(0, 5).unwrap().to_string(), "0");
    assert_eq!(Priority::new(17, 32).unwrap().to_string(), "17");
    assert_eq!(Priority::highest(255).unwrap().to_string(), "254");
}

#[test]
fn the_default_priority_is_idle() {
    assert!(Priority::default().is_idle());
    assert_eq!(Priority::default(), Priority::idle());
}
