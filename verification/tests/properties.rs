use std::rc::Rc;

use holodeque::{ArrayDeque, SliceDeque};

#[test]
fn len_never_exceeds_capacity_under_mixed_ops() {
    let mut deque: ArrayDeque<u32, 4> = ArrayDeque::new();

    let mut check = |deque: &ArrayDeque<u32, 4>| {
        assert!(deque.len() <= deque.capacity());
        assert_eq!(deque.is_full(), deque.len() == deque.capacity());
        assert_eq!(deque.is_empty(), deque.len() == 0);
    };

    check(&deque);
    let _ = deque.push_back(1);
    check(&deque);
    let _ = deque.push_front(2);
    check(&deque);
    let _ = deque.push_back(3);
    check(&deque);
    let _ = deque.push_back(4);
    check(&deque);
    let _ = deque.push_front(5);
    check(&deque);
    let _ = deque.push_back(6);
    check(&deque);
    let _ = deque.pop_front();
    check(&deque);
    let _ = deque.pop_back();
    check(&deque);
    let _ = deque.pop_front();
    check(&deque);
    let _ = deque.pop_back();
    check(&deque);
    let _ = deque.pop_front();
    check(&deque);
}

#[test]
fn round_trip_push_back_pop_front() {
    let mut deque: ArrayDeque<u32, 8> = ArrayDeque::new();

    for x in 1..=6u32 {
        deque.push_back(x).unwrap();
    }
    for x in 1..=6u32 {
        assert_eq!(deque.pop_front(), Some(x));
    }
    assert_eq!(deque.pop_front(), None);
}

#[test]
fn round_trip_push_front_pop_back() {
    let mut deque: ArrayDeque<u32, 8> = ArrayDeque::new();

    for x in 1..=6u32 {
        deque.push_front(x).unwrap();
    }
    for x in 1..=6u32 {
        assert_eq!(deque.pop_back(), Some(x));
    }
    assert_eq!(deque.pop_back(), None);
}

#[test]
fn truncate_to_len_or_more_is_noop() {
    let mut deque: ArrayDeque<u32, 5> = ArrayDeque::new();
    deque.push_back(1).unwrap();
    deque.push_back(2).unwrap();
    deque.push_back(3).unwrap();

    deque.truncate(3);
    assert_eq!(deque.len(), 3);
    deque.truncate(4);
    assert_eq!(deque.len(), 3);

    let mut iter = deque.iter();
    assert_eq!(iter.next(), Some(&1));
    assert_eq!(iter.next(), Some(&2));
    assert_eq!(iter.next(), Some(&3));
    assert_eq!(iter.next(), None);
}

#[test]
fn drain_zero_is_noop() {
    let mut deque: ArrayDeque<u32, 5> = ArrayDeque::new();
    deque.push_back(7).unwrap();
    deque.push_back(8).unwrap();

    let mut front_cursor = deque.drain_front(0).unwrap();
    assert_eq!(front_cursor.next(), None);
    let mut back_cursor = deque.drain_back(0).unwrap();
    assert_eq!(back_cursor.next(), None);

    assert_eq!(deque.len(), 2);
    assert_eq!(deque.front(), Some(&7));
    assert_eq!(deque.back(), Some(&8));
}

#[test]
fn slices_match_iteration_on_wrapped_state_with_gap() {
    // Reach a wrapped occupancy with a non-empty gap: fill, wrap, then free
    // one slot at the back.
    let mut deque: ArrayDeque<&'static str, 4> = ArrayDeque::new();
    deque.push_back("a").unwrap();
    deque.push_back("b").unwrap();
    deque.push_back("c").unwrap();
    deque.push_front("d").unwrap();
    assert_eq!(deque.pop_back(), Some("c"));

    let (first, second) = deque.as_slices();
    assert_eq!(first, &["d"]);
    assert_eq!(second, &["a", "b"]);

    let mut from_iter = Vec::new();
    let mut iter = deque.iter();
    while let Some(&item) = iter.next() {
        from_iter.push(item);
    }
    let mut from_slices = Vec::from(first);
    from_slices.extend_from_slice(second);
    assert_eq!(from_slices, from_iter);
}

#[test]
fn zero_capacity_rejected_value_is_recoverable() {
    let mut deque: ArrayDeque<u32, 0> = ArrayDeque::new();

    let err = deque.push_back(4).unwrap_err();
    assert_eq!(*err.get(), 4);
    assert_eq!(err.into_inner(), 4);

    let err = deque.push_front(9).unwrap_err();
    assert_eq!(err.into_inner(), 9);

    assert_eq!(deque.pop_front(), None);
    assert_eq!(deque.pop_back(), None);
    assert_eq!(deque.front(), None);
    assert_eq!(deque.back(), None);
}

#[test]
fn wrap_transition_scenario() {
    let mut deque: ArrayDeque<u32, 3> = ArrayDeque::new();

    deque.push_back(1).unwrap();
    deque.push_back(2).unwrap();
    deque.push_back(3).unwrap();

    assert_eq!(deque.front(), Some(&1));
    assert_eq!(deque.back(), Some(&3));
    assert!(deque.is_full());

    let err = deque.push_back(4).unwrap_err();
    assert_eq!(err.into_inner(), 4);

    assert_eq!(deque.pop_front(), Some(1));
    deque.push_back(4).unwrap();

    let mut contents = Vec::new();
    let mut iter = deque.iter();
    while let Some(&item) = iter.next() {
        contents.push(item);
    }
    assert_eq!(contents, vec![2, 3, 4]);
}

#[test]
fn drain_front_yields_in_order_and_early_drop_evicts() {
    let mut deque: ArrayDeque<u32, 5> = ArrayDeque::new();
    for x in 0..5u32 {
        deque.push_back(x).unwrap();
    }

    let mut drain = deque.drain_front(3).unwrap();
    assert_eq!(drain.next(), Some(0));
    assert_eq!(drain.next(), Some(1));
    assert_eq!(drain.next(), Some(2));
    assert_eq!(drain.next(), None);
    drop(drain);

    assert_eq!(deque.len(), 2);
    assert_eq!(deque.front(), Some(&3));

    // Dropping a cursor before exhaustion still evicts the elements it never
    // yielded: the deque no longer owns them afterwards.
    let rc = Rc::new("refcount");
    let mut rc_deque: ArrayDeque<Rc<&'static str>, 5> = ArrayDeque::new();
    for _ in 0..5 {
        rc_deque.push_back(rc.clone()).unwrap();
    }
    let mut partial = rc_deque.drain_front(3).unwrap();
    let first = partial.next();
    assert!(first.is_some());
    drop(first);
    drop(partial);
    assert_eq!(rc_deque.len(), 2);
    assert_eq!(Rc::strong_count(&rc), 3);
}

#[test]
fn drain_back_yields_in_removal_order() {
    let mut deque: ArrayDeque<u32, 5> = ArrayDeque::new();
    for x in 0..5u32 {
        deque.push_back(x).unwrap();
    }

    let mut drain = deque.drain_back(3).unwrap();
    assert_eq!(drain.next(), Some(4));
    assert_eq!(drain.next(), Some(3));
    assert_eq!(drain.next(), Some(2));
    assert_eq!(drain.next(), None);
    drop(drain);

    assert_eq!(deque.len(), 2);
    assert_eq!(deque.back(), Some(&1));
}

#[test]
fn drain_longer_than_len_is_refused() {
    let mut deque: ArrayDeque<u32, 5> = ArrayDeque::new();
    deque.push_back(1).unwrap();
    deque.push_back(2).unwrap();

    assert!(deque.drain_front(3).is_none());
    assert!(deque.drain_back(3).is_none());
    assert_eq!(deque.len(), 2);
    assert_eq!(deque.front(), Some(&1));
    assert_eq!(deque.back(), Some(&2));
}

#[test]
fn both_ends_mixed_pushes_give_ordered_slices() {
    let mut deque: ArrayDeque<u32, 6> = ArrayDeque::new();

    deque.push_front(9).unwrap();
    deque.push_front(6).unwrap();
    deque.push_front(3).unwrap();
    deque.push_back(5).unwrap();
    deque.push_back(10).unwrap();
    deque.push_back(15).unwrap();

    let (first, second) = deque.as_slices();
    assert_eq!(first, &[3, 6, 9]);
    assert_eq!(second, &[5, 10, 15]);
    let mut all = Vec::from(first);
    all.extend_from_slice(second);
    assert_eq!(all, vec![3, 6, 9, 5, 10, 15]);
}

#[test]
fn slice_deque_capacity_is_buffer_len() {
    let deque: SliceDeque<&'static str> =
        SliceDeque::new_in(vec!["these", "values", "will", "disappear"]);

    assert!(deque.is_empty());
    assert_eq!(deque.capacity(), 4);
    assert_eq!(deque.len(), 0);
}

#[test]
fn slice_deque_wrap_transition_scenario() {
    let mut deque = SliceDeque::new_in(vec![0u32; 3]);

    deque.push_back(1).unwrap();
    deque.push_back(2).unwrap();
    deque.push_back(3).unwrap();
    assert!(deque.is_full());

    let err = deque.push_back(4).unwrap_err();
    assert_eq!(err.into_inner(), 4);

    assert_eq!(deque.pop_front(), Some(1));
    deque.push_back(4).unwrap();

    let mut contents = Vec::new();
    let mut iter = deque.iter();
    while let Some(&item) = iter.next() {
        contents.push(item);
    }
    assert_eq!(contents, vec![2, 3, 4]);
}

#[test]
fn front_mut_and_back_mut_write_through() {
    let mut deque: ArrayDeque<&'static str, 4> = ArrayDeque::new();

    assert!(deque.front_mut().is_none());
    assert!(deque.back_mut().is_none());

    deque.push_front("old").unwrap();
    deque.push_back("tail").unwrap();

    if let Some(val) = deque.front_mut() {
        *val = "new";
    }
    assert_eq!(deque.front(), Some(&"new"));

    if let Some(val) = deque.back_mut() {
        *val = "end";
    }
    assert_eq!(deque.back(), Some(&"end"));
}

#[test]
fn mut_slices_write_through_in_order() {
    let mut deque: ArrayDeque<u32, 6> = ArrayDeque::new();

    deque.push_front(3).unwrap();
    deque.push_front(6).unwrap();
    deque.push_front(9).unwrap();
    deque.push_back(5).unwrap();
    deque.push_back(10).unwrap();
    deque.push_back(15).unwrap();

    {
        let (first_mut, second_mut) = deque.as_mut_slices();
        for item in first_mut.iter_mut() {
            *item -= 1;
        }
        for item in second_mut.iter_mut() {
            *item += 1;
        }
    }

    let (first, second) = deque.as_slices();
    assert_eq!(first, &[8, 5, 2]);
    assert_eq!(second, &[6, 11, 16]);
}

#[test]
fn equality_ignores_physical_placement() {
    // Same logical contents, one contiguous and one wrapped in storage.
    let mut linear: ArrayDeque<u32, 3> = ArrayDeque::new();
    linear.push_back(1).unwrap();
    linear.push_back(2).unwrap();
    linear.push_back(3).unwrap();

    let mut wrapped: ArrayDeque<u32, 3> = ArrayDeque::new();
    wrapped.push_back(2).unwrap();
    wrapped.push_back(3).unwrap();
    wrapped.push_front(1).unwrap();

    assert_eq!(linear, wrapped);

    let mut shorter = linear.clone();
    shorter.pop_back();
    assert_ne!(linear, shorter);

    let mut different: ArrayDeque<u32, 3> = ArrayDeque::new();
    different.push_back(1).unwrap();
    different.push_back(2).unwrap();
    different.push_back(4).unwrap();
    assert_ne!(linear, different);

    let empty_a: ArrayDeque<u32, 3> = ArrayDeque::new();
    let empty_b: ArrayDeque<u32, 3> = ArrayDeque::new();
    assert_eq!(empty_a, empty_b);
}

#[test]
fn default_is_empty() {
    let deque: ArrayDeque<u32, 3> = Default::default();
    assert!(deque.is_empty());
    assert_eq!(deque.capacity(), 3);
}

#[test]
fn capacity_one_cycles_through_both_ends() {
    let mut deque: ArrayDeque<u32, 1> = ArrayDeque::new();

    deque.push_back(1).unwrap();
    assert!(deque.is_full());
    assert_eq!(deque.front(), Some(&1));
    assert_eq!(deque.back(), Some(&1));
    assert!(deque.push_front(2).is_err());

    assert_eq!(deque.pop_back(), Some(1));
    assert!(deque.is_empty());

    deque.push_front(3).unwrap();
    assert_eq!(deque.pop_front(), Some(3));
    assert_eq!(deque.pop_front(), None);
}

#[test]
fn clear_then_reuse() {
    let mut deque = SliceDeque::new_in(vec![0u32; 4]);
    deque.push_back(1).unwrap();
    deque.push_front(2).unwrap();
    deque.clear();
    assert!(deque.is_empty());
    assert_eq!(deque.capacity(), 4);
    deque.push_back(9).unwrap();
    assert_eq!(deque.front(), Some(&9));
    assert_eq!(deque.back(), Some(&9));
}
