use rusty_rtos_core::tick::{Bits16, Bits32, Bits64, Tick};

#[test]
fn widths_wrap_where_the_c_kernel_does() {
    assert_eq!(Tick::<Bits16>::max_value().get(), 65_535);
    assert_eq!(Tick::<Bits16>::max_value().wrapping_add(1), Tick::zero());
    assert_eq!(Tick::<Bits32>::max_value().get(), 4_294_967_295);
    assert_eq!(Tick::<Bits32>::max_value().wrapping_add(1), Tick::zero());
    assert_eq!(Tick::<Bits64>::max_value().wrapping_add(1), Tick::zero());
    assert_eq!(Tick::<Bits16>::new(70_000).get(), 70_000 & 0xFFFF);
}

#[test]
fn since_survives_the_wrap() {
    let before = Tick::<Bits16>::new(65_530);
    let after = before.wrapping_add(10);
    assert_eq!(after.get(), 4);
    assert_eq!(after.since(before), 10);
    assert_eq!(Tick::<Bits32>::zero().since(Tick::max_value()), 1);
}

#[test]
fn checked_add_names_the_overflow_list() {
    let t = Tick::<Bits16>::new(65_000);
    assert_eq!(t.checked_add(535).map(Tick::get), Some(65_535));
    assert!(t.checked_add(536).is_none());
    assert!(t.overflows_by(536));
    assert!(!t.overflows_by(535));
    assert!(Tick::<Bits32>::zero().checked_add(u64::MAX).is_none());
    assert_eq!(
        Tick::<Bits64>::zero().checked_add(u64::MAX).map(Tick::get),
        Some(u64::MAX)
    );
}

#[test]
fn a_pinned_value_so_moving_it_is_a_diff() {
    assert_eq!(Tick::<Bits32>::bits(), 32);
    assert_eq!(core::mem::size_of::<Tick<Bits16>>(), 8);
}

#[test]
fn wrapping_sub_wraps_below_zero() {
    assert_eq!(Tick::<Bits16>::new(3).wrapping_sub(5).get(), 65_534);
    assert_eq!(Tick::<Bits32>::zero().wrapping_sub(1).get(), u64::from(u32::MAX));
    assert_eq!(Tick::<Bits64>::zero().wrapping_sub(1).get(), u64::MAX);
    assert_eq!(Tick::<Bits16>::default(), Tick::zero());
    assert_eq!(Tick::<Bits64>::new(u64::MAX).get(), u64::MAX);
}

#[test]
fn a_tick_prints_as_its_count() {
    assert_eq!(Tick::<Bits16>::max_value().to_string(), "65535");
    assert_eq!(Tick::<Bits64>::max_value().to_string(), "18446744073709551615");
    assert_eq!(Tick::<Bits32>::zero().to_string(), "0");
    assert_eq!(Tick::<Bits16>::new(70_000).to_string(), "4464");
}

#[test]
fn a_tick_wraps_the_way_the_tick_count_does() {
    let t: Tick<Bits32> = Tick::new(u32::MAX as u64);
    assert_eq!(t.wrapping_add(2).get(), 1);
}
