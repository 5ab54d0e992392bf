use rusty_rtos_core::arena::Arena;
use rusty_rtos_core::error::Error;
use rusty_rtos_core::handle::{Handle, Task};

type Tasks = Arena<Task, u32, 3>;

#[test]
fn insert_get_remove_and_the_stale_handle() {
    let mut a = Tasks::new();
    assert!(a.is_empty());
    let h = a.insert(10).unwrap();
    assert!(!h.is_null());
    assert_eq!(a.get(h), Some(&10));
    assert_eq!(a.len(), 1);
    *a.get_mut(h).unwrap() = 11;
    assert_eq!(a.resolve(h), Ok(&11));
    assert_eq!(a.remove(h), Some(11));
    assert_eq!(a.get(h), None);
    assert_eq!(a.resolve(h), Err(Error::Gone));
    assert_eq!(a.remove(h), None);
    // The slot is reused with a new generation; the old handle stays dead.
    let h2 = a.insert(12).unwrap();
    assert_eq!(h2.index(), h.index());
    assert_ne!(h2.generation(), h.generation());
    assert_eq!(a.get(h), None);
    assert_eq!(a.get(h2), Some(&12));
}

#[test]
fn full_is_no_memory_and_nothing_is_lost() {
    let mut a = Tasks::new();
    for i in 0..3 {
        a.insert(i).unwrap();
    }
    assert_eq!(a.insert(99), Err(Error::NoMemory));
    assert_eq!(a.try_insert(99), Err(99));
    assert_eq!(a.len(), 3);
    assert_eq!(a.capacity(), 3);
}

#[test]
fn null_and_out_of_range_are_invalid_not_gone() {
    let a = Tasks::new();
    assert_eq!(a.resolve(Handle::null()), Err(Error::InvalidHandle));
    assert_eq!(
        a.resolve(Handle::from_parts(7, 1)),
        Err(Error::InvalidHandle)
    );
    assert_eq!(a.resolve(Handle::from_parts(1, 1)), Err(Error::Gone));
    assert!(!a.contains(Handle::from_parts(0, 1)));
}

#[test]
fn generations_never_mint_a_null_handle() {
    let mut a = Arena::<Task, u8, 1>::new();
    let mut last = 0u16;
    for _ in 0..70_000u32 {
        let h = a.insert(0).unwrap();
        assert!(!h.is_null());
        assert_ne!(h.generation(), last);
        last = h.generation();
        a.remove(h).unwrap();
    }
}

#[test]
fn iteration_is_in_slot_order_with_live_handles() {
    let mut a = Tasks::new();
    let h0 = a.insert(0).unwrap();
    let h1 = a.insert(1).unwrap();
    let h2 = a.insert(2).unwrap();
    a.remove(h1).unwrap();
    let seen: Vec<(Handle<Task>, u32)> = a.iter().into_iter().map(|(h, v)| (h, *v)).collect();
    assert_eq!(seen.as_slice(), &[(h0, 0), (h2, 2)]);
    assert_eq!(a.handle_at(1), None);
    assert_eq!(a.handle_at(2), Some(h2));
}

/// A freed slot is reused at an odd generation two on from the freed handle's,
/// so the freed handle never resolves to the new occupant.
#[test]
fn a_reused_slot_steps_the_generation_past_the_freed_handle() {
    let mut a = Tasks::new();
    let h = a.insert(1).unwrap();
    assert_eq!(h.generation(), 1);
    assert_eq!(a.remove(h), Some(1));
    let h2 = a.insert(2).unwrap();
    assert_eq!(h2.index(), h.index());
    assert_eq!(h2.generation(), 3);
    assert_eq!(a.resolve(h), Err(Error::Gone));
    assert!(a.contains(h2));
}

/// The first free slot is the one taken, even behind live ones.
#[test]
fn insert_takes_the_first_free_slot() {
    let mut a = Tasks::new();
    let h0 = a.insert(0).unwrap();
    let h1 = a.insert(1).unwrap();
    let _h2 = a.insert(2).unwrap();
    a.remove(h1).unwrap();
    a.remove(h0).unwrap();
    let h = a.insert(7).unwrap();
    assert_eq!(h.index(), 0);
    assert_eq!(h.generation(), 3);
    assert_eq!(a.len(), 2);
}

/// `resolve_mut` writes through, and says why when it cannot.
#[test]
fn resolve_mut_writes_through_and_reports_why() {
    let mut a = Tasks::new();
    let h = a.insert(5).unwrap();
    *a.resolve_mut(h).unwrap() = 6;
    assert_eq!(a.get(h), Some(&6));
    assert_eq!(a.resolve_mut(Handle::from_parts(9, 1)), Err(Error::InvalidHandle));
    assert_eq!(a.resolve_mut(Handle::from_parts(0, 3)), Err(Error::Gone));
    assert_eq!(a.resolve_mut(Handle::null()), Err(Error::InvalidHandle));
    assert!(a.get_mut(Handle::from_parts(0, 2)).is_none());
}

/// `iter_mut` hands out the live objects in slot order, and what is written
/// through them is what the arena holds afterwards.
#[test]
fn iter_mut_writes_through_every_live_object_in_slot_order() {
    let mut a = Tasks::new();
    let h0 = a.insert(10).unwrap();
    let h1 = a.insert(20).unwrap();
    let h2 = a.insert(30).unwrap();
    a.remove(h1).unwrap();
    let mut seen = Vec::new();
    for (h, v) in a.iter_mut() {
        seen.push((h, *v));
        *v += 1;
    }
    assert_eq!(seen.as_slice(), &[(h0, 10), (h2, 30)]);
    assert_eq!(a.get(h0), Some(&11));
    assert_eq!(a.get(h2), Some(&31));
    assert_eq!(a.get(h1), None);
    assert_eq!(a.len(), 2);
}

#[test]
fn the_default_arena_is_an_empty_one() {
    let a = Tasks::default();
    assert!(a.is_empty());
    assert_eq!(a.capacity(), 3);
    assert_eq!(a.handle_at(0), None);
}

#[test]
fn a_remove_drops_the_count_by_one_and_kills_every_handle_to_the_slot() {
    let mut a = Tasks::new();
    let h = a.insert(4).unwrap();
    let _ = a.insert(5).unwrap();
    assert_eq!(a.len(), 2);
    assert_eq!(a.remove(h), Some(4));
    assert_eq!(a.len(), 1);
    assert_eq!(a.remove(h), None);
    assert_eq!(a.resolve(Handle::from_parts(h.index(), h.generation() + 1)), Err(Error::Gone));
    assert_eq!(a.len(), 1);
}

#[test]
fn a_slot_reused_32767_times_never_brings_a_freed_handle_back() {
    let mut a = Arena::<Task, u8, 1>::new();
    let first = a.insert(0).unwrap();
    a.remove(first).unwrap();
    for _ in 0..32_767u32 {
        let h = a.insert(1).unwrap();
        assert!(!h.is_null());
        assert_ne!(h.generation(), first.generation());
        assert_eq!(a.get(first), None);
        a.remove(h).unwrap();
    }
    let again = a.insert(2).unwrap();
    assert_eq!(again.generation(), first.generation());
}
