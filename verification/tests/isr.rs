use rusty_rtos_core::isr::{Isr, Woken};

#[test]
fn woken_accumulates() {
    assert!(!Woken::no().needed());
    assert!(Woken::no().or(Woken::yes()).needed());
    assert!(Woken::yes().or(Woken::no()).needed());
    assert!(!Woken::no().or(Woken::no()).needed());
    assert_eq!(Woken::default(), Woken::no());
    let _token = Isr::new();
}

#[test]
fn the_default_flag_is_nothing_woken() {
    assert_eq!(Woken::default(), Woken::no());
    assert!(!Woken::default().needed());
}
