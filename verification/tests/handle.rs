use rusty_rtos_core::error::Error;
use rusty_rtos_core::handle::{Handle, Kind, Queue, QueueHandle, Task, TaskHandle};

#[test]
fn raw_form_round_trips_and_null_is_zero() {
    let h = TaskHandle::from_parts(7, 3);
    assert_eq!(h.to_raw(), 0x0003_0007);
    assert_eq!(TaskHandle::from_raw(h.to_raw()), h);
    assert_eq!(TaskHandle::null().to_raw(), 0);
    assert!(TaskHandle::from_raw(0).is_null());
    assert_eq!(TaskHandle::null().non_null(), Err(Error::InvalidHandle));
    assert_eq!(h.non_null(), Ok(h));
}

#[test]
fn kinds_do_not_mix_and_names_are_stable() {
    assert_eq!(<Task as Kind>::NAME, "task");
    assert_eq!(<Queue as Kind>::NAME, "queue");
    let _q: QueueHandle = Handle::from_parts(1, 1);
    assert_eq!(core::mem::size_of::<TaskHandle>(), 4);
}

#[test]
fn from_raw_splits_the_halves() {
    let h = TaskHandle::from_raw(0xABCD_1234);
    assert_eq!(h.index(), 0x1234);
    assert_eq!(h.generation(), 0xABCD);
    assert_eq!(h.to_raw(), 0xABCD_1234);
    assert_eq!(TaskHandle::default(), TaskHandle::null());
    assert_eq!(TaskHandle::MAX_INDEX, 65534);
}

#[test]
fn a_handle_prints_its_kind_slot_and_generation() {
    assert_eq!(TaskHandle::from_parts(7, 3).to_string(), "task:7@3");
    assert_eq!(TaskHandle::null().to_string(), "task:null");
    assert_eq!(QueueHandle::from_parts(0, 65535).to_string(), "queue:0@65535");
    assert_eq!(QueueHandle::from_parts(120, 0).to_string(), "queue:null");
}

#[test]
fn a_handle_is_a_slot_and_a_generation() {
    let h: Handle<Task> = Handle::from_parts(3, 1);
    assert_eq!(h.index(), 3);
    assert_ne!(h, Handle::from_parts(3, 2));
}
