use rusty_rtos_core::error::Error;
use rusty_rtos_core::list::{slots_for, ItemId, ListId, Lists, ListsOf};

/// The items of `list`, in link order, as the iterator hands them out.
fn order<const N: usize, const L: usize>(l: &Lists<N, L>, list: ListId) -> Vec<ItemId> {
    let mut it = l.iter(list);
    let mut out = Vec::new();
    while let Some(item) = it.next() {
        out.push(item);
    }
    out
}

#[test]
fn round_robin_alternates_between_two_items() {
    let mut l = Lists::<16, 2>::new();
    l.insert_end(0, 1).unwrap();
    l.insert_end(0, 2).unwrap();
    assert_eq!(l.len(0).unwrap(), 2);

    let mut seen = Vec::new();
    for _ in 0..6 {
        seen.push(l.next_round_robin(0).unwrap());
    }
    let mut it = seen.iter();
    let a = it.next().copied().unwrap();
    let b = it.next().copied().unwrap();
    assert_ne!(a, b, "two calls in a row returned the same item: {seen:?}");
    let want = [a, b, a, b, a, b];
    assert!(
        seen.iter().eq(want.iter()),
        "the rotation did not alternate: {seen:?}"
    );
}

#[test]
fn round_robin_survives_another_list_being_used_between_calls() {
    let mut l = Lists::<16, 2>::new();
    l.insert_end(0, 1).unwrap();
    l.insert_end(0, 2).unwrap();
    l.insert_end(1, 3).unwrap();

    let mut seen = Vec::new();
    for _ in 0..6 {
        assert_eq!(l.next_round_robin(1).unwrap(), Some(3));
        l.remove(3).unwrap();
        seen.push(l.next_round_robin(0).unwrap().unwrap());
        l.insert_end(1, 3).unwrap();
    }
    let a = seen.first().copied().unwrap();
    assert!(
        seen.iter().any(|&x| x != a),
        "the busy list stopped rotating once another list was used: {seen:?}"
    );
}

#[test]
fn round_robin_visits_every_item_in_turn() {
    let mut l = Lists::<16, 2>::new();
    for item in 1..=3 {
        l.insert_end(0, item).unwrap();
    }
    let mut seen = Vec::new();
    for _ in 0..6 {
        seen.push(l.next_round_robin(0).unwrap().unwrap());
    }
    assert_eq!(seen.len(), 6);
    let first = seen.first().copied().unwrap();
    assert_eq!(
        seen.get(3).copied(),
        Some(first),
        "it did not come back round after three"
    );
    let mut lap: Vec<ItemId> = seen.iter().take(3).copied().collect();
    lap.sort_unstable();
    assert!(
        lap.iter().eq([1, 2, 3].iter()),
        "not every item was visited: {seen:?}"
    );
}

#[test]
fn insert_sorts_ascending_after_equal_values_like_v_list_insert() {
    let mut l = Lists::<16, 2>::new();
    assert!(l.is_empty(0).unwrap());
    assert_eq!(l.head_value(0).unwrap(), Lists::<16, 2>::max_value());
    l.insert(0, 3, 30).unwrap();
    l.insert(0, 1, 10).unwrap();
    l.insert(0, 2, 20).unwrap();
    l.insert(0, 4, 20).unwrap();
    l.insert(0, 5, Lists::<16, 2>::max_value()).unwrap();
    l.insert(0, 6, Lists::<16, 2>::max_value()).unwrap();
    assert_eq!(order(&l, 0), [1, 2, 4, 3, 5, 6]);
    assert_eq!(l.head(0).unwrap(), Some(1));
    assert_eq!(l.head_value(0).unwrap(), 10);
    assert_eq!(l.len(0).unwrap(), 6);
    assert_eq!(l.container(4).unwrap(), Some(0));
    assert_eq!(l.container(7).unwrap(), None);
}

#[test]
fn insert_end_and_the_round_robin_cursor() {
    let mut l = Lists::<16, 2>::new();
    assert_eq!(l.next_round_robin(0).unwrap(), None);
    l.insert_end(0, 1).unwrap();
    l.insert_end(0, 2).unwrap();
    l.insert_end(0, 3).unwrap();
    assert_eq!(order(&l, 0), [1, 2, 3]);
    assert_eq!(l.next_round_robin(0).unwrap(), Some(1));
    assert_eq!(l.next_round_robin(0).unwrap(), Some(2));
    l.insert_end(0, 4).unwrap();
    assert_eq!(order(&l, 0), [1, 4, 2, 3]);
    assert_eq!(l.next_round_robin(0).unwrap(), Some(3));
    assert_eq!(l.next_round_robin(0).unwrap(), Some(1));
    assert_eq!(l.next_round_robin(0).unwrap(), Some(4));
}

#[test]
fn remove_returns_the_count_and_moves_the_cursor_back() {
    let mut l = Lists::<16, 2>::new();
    for i in 1..=3 {
        l.insert_end(0, i).unwrap();
    }
    assert_eq!(l.next_round_robin(0).unwrap(), Some(1));
    assert_eq!(l.next_round_robin(0).unwrap(), Some(2));
    assert_eq!(l.remove(2).unwrap(), 2);
    assert_eq!(l.container(2).unwrap(), None);
    assert_eq!(l.next_round_robin(0).unwrap(), Some(3));
    assert_eq!(l.remove(1).unwrap(), 1);
    assert_eq!(l.remove(3).unwrap(), 0);
    assert!(l.is_empty(0).unwrap());
    assert_eq!(l.next_round_robin(0).unwrap(), None);
    assert_eq!(l.remove(3), Err(Error::NotActive));
}

#[test]
fn an_item_is_in_one_list_at_a_time_and_moves_between_lists() {
    let mut l = Lists::<16, 2>::new();
    l.insert(0, 1, 5).unwrap();
    assert_eq!(l.insert(1, 1, 5), Err(Error::Busy));
    assert_eq!(l.insert_end(1, 1), Err(Error::Busy));
    l.remove(1).unwrap();
    l.insert(1, 1, 7).unwrap();
    assert_eq!(l.container(1).unwrap(), Some(1));
    assert_eq!(order(&l, 0), []);
    assert_eq!(order(&l, 1), [1]);
    assert_eq!(l.value(1).unwrap(), 7);
}

#[test]
fn bad_arguments_are_errors_not_panics() {
    type L8 = Lists<8, 1>;
    let past_end: ItemId = L8::capacity() as ItemId;
    let mut l = L8::new();
    assert_eq!(l.insert(1, 0, 0), Err(Error::InvalidArgument));
    assert_eq!(l.insert(0, past_end, 0), Err(Error::InvalidArgument));
    assert_eq!(l.remove(past_end + 2), Err(Error::InvalidArgument));
    assert_eq!(l.head(3), Err(Error::InvalidArgument));
    assert_eq!(l.next(0), Err(Error::NotActive));
    assert_eq!(l.set_value(past_end, 1), Err(Error::InvalidArgument));
}

#[test]
fn the_marker_is_what_terminates_the_ordered_walk() {
    type L = Lists<16, 2>;
    let marker: ItemId = L::capacity() as ItemId;

    let mut l = L::new();
    assert_eq!(l.set_value(marker, 0), Err(Error::InvalidArgument));
    assert_eq!(l.set_value(marker + 1, 0), Err(Error::InvalidArgument));
    assert_eq!(l.value(marker), Err(Error::InvalidArgument));
    assert_eq!(l.remove(marker), Err(Error::InvalidArgument));

    l.insert(0, 0, 5).unwrap();
    l.insert(0, 1, L::max_value()).unwrap();
    l.insert(0, 2, 7).unwrap();
    assert_eq!(order(&l, 0), [0, 2, 1], "MAX_VALUE must sort to the end");

    let mut full = L::new();
    for item in 0..marker {
        full.insert(0, item, u64::from(marker - item)).unwrap();
    }
    assert_eq!(full.len(0).unwrap(), usize::from(marker));
    assert!(full.is_sorted(0).unwrap());
    assert_eq!(full.head_value(0).unwrap(), 1);
    assert_eq!(full.tail_value(0).unwrap(), u64::from(marker));
}

#[test]
fn a_value_equal_to_the_tail_goes_after_it() {
    let mut l = Lists::<16, 2>::new();
    l.insert(0, 1, 10).unwrap();
    l.insert(0, 2, 20).unwrap();
    l.insert(0, 3, 20).unwrap();
    l.insert(0, 4, 21).unwrap();
    l.insert(0, 5, 5).unwrap();
    assert_eq!(order(&l, 0), [5, 1, 2, 3, 4]);
    l.insert(0, 6, Lists::<16, 2>::max_value()).unwrap();
    l.insert(0, 7, Lists::<16, 2>::max_value()).unwrap();
    assert_eq!(order(&l, 0), [5, 1, 2, 3, 4, 6, 7]);
}

#[test]
fn the_first_item_of_an_empty_list_at_both_extremes() {
    let mut l = Lists::<16, 2>::new();
    l.insert(0, 0, Lists::<16, 2>::max_value()).unwrap();
    assert_eq!(order(&l, 0), [0]);
    assert_eq!(l.head(0).unwrap(), Some(0));
    assert_eq!(l.head_value(0).unwrap(), Lists::<16, 2>::max_value());
    assert_eq!(l.len(0).unwrap(), 1);

    l.insert(1, 1, 7).unwrap();
    assert_eq!(order(&l, 1), [1]);
    assert_eq!(l.head_value(1).unwrap(), 7);
    l.remove(1).unwrap();
    assert!(l.is_empty(1).unwrap());
    l.insert(1, 2, 3).unwrap();
    l.insert(1, 3, 1).unwrap();
    assert_eq!(order(&l, 1), [3, 2]);
}

#[test]
fn insert_end_leaves_a_list_unsorted_and_insert_still_walks_it() {
    let mut l = Lists::<16, 2>::new();
    l.insert(0, 1, 10).unwrap();
    l.insert(0, 2, 20).unwrap();
    l.insert(0, 3, 30).unwrap();
    assert_eq!(order(&l, 0), [1, 2, 3]);

    l.set_value(4, 5).unwrap();
    l.insert_end(0, 4).unwrap();
    assert_eq!(order(&l, 0), [1, 2, 3, 4]);

    l.insert(0, 5, 25).unwrap();
    assert_eq!(order(&l, 0), [1, 2, 5, 3, 4]);
}

#[test]
fn insert_sorted_appends_or_walks_and_stays_sorted() {
    let mut l = Lists::<16, 2>::new();
    l.insert_sorted(0, 1, 10).unwrap();
    l.insert_sorted(0, 2, 20).unwrap();
    l.insert_sorted(0, 3, 30).unwrap();
    assert_eq!(order(&l, 0), [1, 2, 3]);
    l.insert_sorted(0, 4, 15).unwrap();
    assert_eq!(order(&l, 0), [1, 4, 2, 3]);
    assert!(l.is_sorted(0).unwrap());
    assert_eq!(l.value(3).unwrap(), 30);
}

#[test]
fn insert_sorted_puts_a_later_equal_value_after_its_equals() {
    let mut l = Lists::<16, 2>::new();
    l.insert_sorted(0, 1, 10).unwrap();
    l.insert_sorted(0, 2, 20).unwrap();
    l.insert_sorted(0, 3, 20).unwrap();
    l.insert_sorted(0, 4, 20).unwrap();
    assert_eq!(order(&l, 0), [1, 2, 3, 4]);

    let mut w = Lists::<16, 2>::new();
    w.insert(0, 1, 10).unwrap();
    w.insert(0, 2, 20).unwrap();
    w.insert(0, 3, 20).unwrap();
    w.insert(0, 4, 20).unwrap();
    assert_eq!(order(&w, 0), order(&l, 0));
}

#[test]
fn insert_sorted_appends_at_the_tail_even_after_the_cursor_has_moved() {
    let mut l = Lists::<16, 2>::new();
    l.insert_sorted(0, 1, 10).unwrap();
    l.insert_sorted(0, 2, 20).unwrap();
    l.insert_sorted(0, 3, 30).unwrap();

    assert_eq!(l.next_round_robin(0).unwrap(), Some(1));
    l.insert_sorted(0, 4, 40).unwrap();

    assert_eq!(order(&l, 0), [1, 2, 3, 4]);
    assert!(l.is_sorted(0).unwrap());
}

#[test]
fn insert_sorted_on_an_unsorted_list_misplaces_and_is_sorted_says_so() {
    let mut l = Lists::<16, 2>::new();
    l.insert(0, 1, 10).unwrap();
    l.insert(0, 2, 20).unwrap();
    l.insert(0, 3, 30).unwrap();

    l.set_value(4, 5).unwrap();
    l.insert_end(0, 4).unwrap();
    assert!(!l.is_sorted(0).unwrap(), "the list is unsorted now");

    l.insert_sorted(0, 5, 25).unwrap();
    assert_eq!(order(&l, 0), [1, 2, 3, 4, 5]);
    assert_eq!(order(&l, 0).len(), 5);
    assert!(!l.is_sorted(0).unwrap());
}

#[test]
fn is_sorted_answers_for_empty_single_and_equal_lists() {
    let mut l = Lists::<16, 2>::new();
    assert!(l.is_sorted(0).unwrap(), "an empty list is sorted");
    l.insert_sorted(0, 1, 7).unwrap();
    assert!(l.is_sorted(0).unwrap(), "one item is sorted");
    l.insert_sorted(0, 2, 7).unwrap();
    assert!(l.is_sorted(0).unwrap(), "equal values are non-decreasing");
    assert!(l.is_sorted(1).unwrap(), "an untouched list is sorted");
    assert!(l.is_sorted(2).is_err(), "a list outside 0..L is an error");
}

#[test]
fn set_value_on_a_linked_item_leaves_the_list_unsorted() {
    let mut l = Lists::<16, 2>::new();
    l.insert(0, 1, 10).unwrap();
    l.insert(0, 2, 20).unwrap();
    l.insert(0, 3, 30).unwrap();
    l.set_value(3, 1).unwrap();
    l.insert(0, 4, 15).unwrap();
    assert_eq!(order(&l, 0), [1, 4, 2, 3]);
}

#[test]
fn set_value_then_reinsert_resorts() {
    let mut l = Lists::<8, 1>::new();
    l.insert(0, 0, 1).unwrap();
    l.insert(0, 1, 2).unwrap();
    l.remove(0).unwrap();
    l.set_value(0, 9).unwrap();
    let v = l.value(0).unwrap();
    l.insert(0, 0, v).unwrap();
    assert_eq!(order(&l, 0), [1, 0]);
}

#[test]
fn is_sorted_does_not_false_alarm_on_a_completely_full_list() {
    let mut l = Lists::<16, 2>::new();
    for i in 0..8_u16 {
        l.insert_sorted(0, i, u64::from(i) * 10).unwrap();
    }
    assert_eq!(order(&l, 0).len(), 8, "every item is linked");
    assert!(l.is_sorted(0).unwrap(), "a full list is sorted, not corrupt");
}

#[test]
fn tail_value_is_max_when_empty_and_the_last_value_when_not() {
    let mut l = Lists::<16, 2>::new();
    assert_eq!(
        l.tail_value(0),
        Ok(Lists::<16, 2>::max_value()),
        "empty answers MAX, which is the end marker's own value"
    );
    assert_ne!(
        Lists::<16, 2>::max_value(),
        u64::default(),
        "and MAX is not the default, or the test above proves nothing"
    );

    l.insert_sorted(0, 1, 10).unwrap();
    l.insert_sorted(0, 2, 20).unwrap();
    assert_eq!(l.tail_value(0), Ok(20), "the LAST value, not the first");
}

#[test]
fn is_empty_follows_inserts_and_removes_on_that_list_alone() {
    let mut l = Lists::<16, 2>::new();
    assert_eq!(l.is_empty(0), Ok(true));
    assert_eq!(l.is_empty(1), Ok(true));

    l.insert_sorted(0, 1, 10).unwrap();
    assert_eq!(l.is_empty(0), Ok(false));
    assert_eq!(l.is_empty(1), Ok(true), "list 1 is untouched");

    l.remove(1).unwrap();
    assert_eq!(l.is_empty(0), Ok(true), "and empty again after the remove");
}

#[test]
fn cursor_of_reports_the_marker_then_the_item_it_lands_on() {
    let mut l = Lists::<16, 2>::new();
    l.insert_sorted(0, 1, 10).unwrap();
    l.insert_sorted(0, 2, 20).unwrap();

    let start = l.cursor_of(0).unwrap();
    assert_eq!(l.next_round_robin(0).unwrap(), Some(1));
    let after = l.cursor_of(0).unwrap();
    assert_ne!(after, start, "one lap moved the cursor off the marker");
    assert_eq!(after, 1, "and onto the item the lap returned");
}

#[test]
fn insert_takes_its_longest_walk_on_a_full_list_entered_in_order() {
    let mut l = Lists::<16, 2>::new();
    for i in 0..8_u16 {
        l.insert(0, i, u64::from(i).wrapping_add(1).wrapping_mul(10))
            .expect("a full list is not a corrupt one");
    }
    assert_eq!(order(&l, 0), [0, 1, 2, 3, 4, 5, 6, 7]);
    assert!(l.is_sorted(0).unwrap());
}

#[test]
fn insert_keeping_value_links_the_item_and_sorts_by_what_it_holds() {
    let mut l = Lists::<16, 2>::new();
    l.insert(0, 1, 10).unwrap();
    l.insert(0, 2, 30).unwrap();

    l.set_value(3, 20).unwrap();
    l.insert_keeping_value(0, 3).unwrap();

    assert_eq!(
        order(&l, 0),
        [1, 3, 2],
        "it linked the item, and sorted it by the 20 it was carrying"
    );
    assert_eq!(l.value(3).unwrap(), 20, "and did not overwrite that value");
}

#[test]
fn next_yields_the_successor_and_stops_at_the_tail() {
    let mut l = Lists::<16, 2>::new();
    l.insert(0, 1, 10).unwrap();
    l.insert(0, 2, 20).unwrap();
    l.insert(0, 3, 30).unwrap();

    assert_eq!(l.next(1), Ok(Some(2)), "the middle of a list has a next");
    assert_eq!(l.next(2), Ok(Some(3)));
    assert_eq!(
        l.next(3),
        Ok(None),
        "and the LAST item has none -- not the marker"
    );
}

// ---- laws and edges on concrete values ----

#[test]
fn slots_for_rounds_the_sum_up_to_a_power_of_two() {
    assert_eq!(slots_for(14, 2), 16);
    assert_eq!(slots_for(15, 2), 32);
    assert_eq!(slots_for(0, 0), 1);
    assert_eq!(slots_for(7, 1), 8);
}

#[test]
fn a_lap_of_the_round_robin_visits_each_item_once_and_returns() {
    let mut l = Lists::<16, 2>::new();
    for item in 1..=4 {
        l.insert_end(1, item).unwrap();
    }
    let mut lap = Vec::new();
    for _ in 0..4 {
        lap.push(l.next_round_robin(1).unwrap().unwrap());
    }
    assert_eq!(lap, [1, 2, 3, 4]);
    assert_eq!(l.next_round_robin(1).unwrap(), Some(1));
}

#[test]
fn an_item_in_one_list_is_refused_by_every_other() {
    let mut l = Lists::<16, 2>::new();
    l.insert_sorted(0, 5, 3).unwrap();
    assert_eq!(l.insert_sorted(1, 5, 3), Err(Error::Busy));
    assert_eq!(l.insert_keeping_value(1, 5), Err(Error::Busy));
    assert_eq!(l.insert(0, 5, 3), Err(Error::Busy));
    assert_eq!(order(&l, 1), []);
    assert_eq!(l.len(0), Ok(1));
}

#[test]
fn insert_sorted_on_a_sorted_list_matches_insert() {
    let values = [30_u64, 10, 20, 20, 5, 40, 10];
    let mut a = Lists::<16, 2>::new();
    let mut b = Lists::<16, 2>::new();
    for (i, v) in values.iter().enumerate() {
        a.insert(0, i as ItemId, *v).unwrap();
        b.insert_sorted(0, i as ItemId, *v).unwrap();
        assert_eq!(order(&a, 0), order(&b, 0));
    }
    assert!(b.is_sorted(0).unwrap());
}

#[test]
fn other_value_widths_sort_the_same_way() {
    let mut l = ListsOf::<u16, 8, 1>::new();
    l.insert(0, 0, 300).unwrap();
    l.insert(0, 1, 100).unwrap();
    l.insert(0, 2, u16::MAX).unwrap();
    assert_eq!(l.head_value(0), Ok(100));
    assert_eq!(l.tail_value(0), Ok(u16::MAX));
    assert_eq!(ListsOf::<u32, 8, 1>::max_value(), u32::MAX);
}

#[test]
fn errors_on_every_read_of_a_list_that_does_not_exist() {
    let l = Lists::<16, 2>::new();
    assert_eq!(l.is_empty(2), Err(Error::InvalidArgument));
    assert_eq!(l.len(2), Err(Error::InvalidArgument));
    assert_eq!(l.head_value(2), Err(Error::InvalidArgument));
    assert_eq!(l.tail_value(2), Err(Error::InvalidArgument));
    assert_eq!(l.cursor_of(2), Err(Error::InvalidArgument));
    assert_eq!(order(&l, 2), []);
    assert_eq!(l.container(14), Err(Error::InvalidArgument));
}

#[test]
fn the_default_lists_are_empty_lists() {
    let mut l = Lists::<16, 2>::default();
    assert_eq!(l.is_empty(0), Ok(true));
    assert_eq!(l.head_value(1), Ok(Lists::<16, 2>::max_value()));
    l.insert(1, 4, 9).unwrap();
    assert_eq!(order(&l, 1), [4]);
}

#[test]
fn a_removed_item_is_in_no_list_and_a_second_remove_is_refused() {
    let mut l = Lists::<16, 2>::new();
    l.insert(1, 6, 40).unwrap();
    l.insert(1, 2, 10).unwrap();
    assert_eq!(l.remove(6), Ok(1));
    assert_eq!(l.container(6), Ok(None));
    assert_eq!(l.remove(6), Err(Error::NotActive));
    assert_eq!(l.value(6), Ok(40));
    l.set_value(2, 3).unwrap();
    assert_eq!(l.value(2), Ok(3));
    assert_eq!(l.head_value(1), Ok(3));
}
