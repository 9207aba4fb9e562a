use std::mem;
use std::rc::Rc;

use holodeque::SliceDeque;

#[test]
fn slice_deque_empty_deque_has_zero_len() {
    let d0: SliceDeque<()> = SliceDeque::new_in(Vec::new());
    assert_eq!(d0.len(), 0);

    let d1 = SliceDeque::new_in(vec![()]);
    assert_eq!(d1.len(), 0);

    let d3 = SliceDeque::new_in(vec![(), (), ()]);
    assert_eq!(d3.len(), 0);
}

#[test]
fn slice_deque_empty_deque_front_is_none() {
    let d0: SliceDeque<()> = SliceDeque::new_in(Vec::new());
    assert_eq!(d0.front(), None);

    let d1 = SliceDeque::new_in(vec![()]);
    assert_eq!(d1.front(), None);

    let d3 = SliceDeque::new_in(vec![(), (), ()]);
    assert_eq!(d3.front(), None);
}

#[test]
fn slice_deque_empty_deque_back_is_none() {
    let d0: SliceDeque<()> = SliceDeque::new_in(Vec::new());
    assert_eq!(d0.back(), None);

    let d1 = SliceDeque::new_in(vec![()]);
    assert_eq!(d1.back(), None);

    let d3 = SliceDeque::new_in(vec![(), (), ()]);
    assert_eq!(d3.back(), None);
}

#[test]
fn slice_deque_zero_capacity_is_both_empty_and_full() {
    let zero_cap: SliceDeque<()> = SliceDeque::new_in(Vec::new());

    assert!(zero_cap.is_empty());
    assert!(zero_cap.is_full());
}

#[test]
fn slice_deque_push_zero_capacity_is_error() {
    let mut zero_cap = SliceDeque::new_in(Vec::new());

    assert!(zero_cap.push_front(()).is_err());
    assert!(zero_cap.push_back(()).is_err());
}

#[test]
fn slice_deque_pop_zero_capacity_is_none() {
    let mut zero_cap: SliceDeque<()> = SliceDeque::new_in(Vec::new());

    assert_eq!(zero_cap.pop_front(), None);
    assert_eq!(zero_cap.pop_back(), None);
}

#[test]
fn slice_deque_push_full_linear_is_error() {
    let mut deque = SliceDeque::new_in(vec![(), (), ()]);

    deque.push_front(()).unwrap();
    deque.push_front(()).unwrap();
    deque.push_front(()).unwrap();

    assert!(deque.push_front(()).is_err());
    assert!(deque.push_back(()).is_err());
}

#[test]
fn slice_deque_push_full_wrapped_is_error() {
    let mut deque = SliceDeque::new_in(vec![(), (), ()]);

    deque.push_front(()).unwrap();
    deque.push_front(()).unwrap();
    deque.push_back(()).unwrap();

    assert!(deque.push_front(()).is_err());
    assert!(deque.push_back(()).is_err());
}

#[test]
fn slice_deque_pop_empty_is_none() {
    let mut deque = SliceDeque::new_in(vec![(), (), ()]);

    assert_eq!(deque.pop_front(), None);
    assert_eq!(deque.pop_back(), None);
}

#[test]
fn slice_deque_push_front_one_becomes_front_and_back() {
    let mut deque = SliceDeque::new_in(vec![0u32, 0, 0]);

    deque.push_front(42).unwrap();

    assert_eq!(deque.front(), Some(&42));
    assert_eq!(deque.back(), Some(&42));
}

#[test]
fn slice_deque_push_back_one_becomes_front_and_back() {
    let mut deque = SliceDeque::new_in(vec![0u32, 0, 0]);

    deque.push_back(42).unwrap();

    assert_eq!(deque.front(), Some(&42));
    assert_eq!(deque.back(), Some(&42));
}

#[test]
fn push_front_becomes_wrapped() {
    let mut deque = SliceDeque::new_in(vec![0u32, 0, 0]);

    deque.push_back(42).unwrap();
    deque.push_back(73).unwrap();
    deque.push_front(37).unwrap();

    assert_eq!(deque.front(), Some(&37));
    assert_eq!(deque.back(), Some(&73));
}

#[test]
fn push_back_becomes_wrapped() {
    let mut deque = SliceDeque::new_in(vec![0u32, 0, 0]);

    deque.push_front(42).unwrap();
    deque.push_front(73).unwrap();
    deque.push_back(37).unwrap();

    assert_eq!(deque.front(), Some(&73));
    assert_eq!(deque.back(), Some(&37));
}

#[test]
fn slice_deque_push_both_ends_front_back() {
    let mut deque = SliceDeque::new_in(vec!["", "", ""]);

    deque.push_back("back").unwrap();
    deque.push_front("front").unwrap();

    assert_eq!(deque.front(), Some(&"front"));
    assert_eq!(deque.back(), Some(&"back"));
}

#[test]
fn slice_deque_push_pop_front() {
    let mut deque = SliceDeque::new_in(vec!["", "", ""]);

    deque.push_front("front").unwrap();

    assert_eq!(deque.len(), 1);
    assert_eq!(deque.pop_front(), Some("front"));
    assert_eq!(deque.len(), 0);
}

#[test]
fn slice_deque_push_pop_back() {
    let mut deque = SliceDeque::new_in(vec!["", "", ""]);

    deque.push_back("back").unwrap();

    assert_eq!(deque.len(), 1);
    assert_eq!(deque.pop_back(), Some("back"));
    assert_eq!(deque.len(), 0);
}

#[test]
fn slice_deque_push_front_then_back() {
    let push_front_then_back = |deque: &mut SliceDeque<&'static str>| {
        deque.push_front("front").unwrap();
        assert_eq!(deque.len(), 1);
        deque.push_back("back").unwrap();
        assert_eq!(deque.len(), 2);
    };

    {
        let mut pop_front_front = SliceDeque::new_in(vec!["", "", ""]);
        push_front_then_back(&mut pop_front_front);

        assert_eq!(pop_front_front.pop_front(), Some("front"));
        assert_eq!(pop_front_front.pop_front(), Some("back"));
    }

    {
        let mut pop_front_back = SliceDeque::new_in(vec!["", "", ""]);
        push_front_then_back(&mut pop_front_back);

        assert_eq!(pop_front_back.pop_front(), Some("front"));
        assert_eq!(pop_front_back.pop_back(), Some("back"));
    }

    {
        let mut pop_back_front = SliceDeque::new_in(vec!["", "", ""]);
        push_front_then_back(&mut pop_back_front);

        assert_eq!(pop_back_front.pop_back(), Some("back"));
        assert_eq!(pop_back_front.pop_front(), Some("front"));
    }

    {
        let mut pop_back_back = SliceDeque::new_in(vec!["", "", ""]);
        push_front_then_back(&mut pop_back_back);

        assert_eq!(pop_back_back.pop_back(), Some("back"));
        assert_eq!(pop_back_back.pop_back(), Some("front"));
    }
}

#[test]
fn slice_deque_push_back_then_front() {
    let push_back_then_front = |deque: &mut SliceDeque<&'static str>| {
        deque.push_back("back").unwrap();
        assert_eq!(deque.len(), 1);
        deque.push_front("front").unwrap();
        assert_eq!(deque.len(), 2);
    };

    {
        let mut pop_front_front = SliceDeque::new_in(vec!["", "", ""]);
        push_back_then_front(&mut pop_front_front);

        assert_eq!(pop_front_front.pop_front(), Some("front"));
        assert_eq!(pop_front_front.pop_front(), Some("back"));
    }

    {
        let mut pop_front_back = SliceDeque::new_in(vec!["", "", ""]);
        push_back_then_front(&mut pop_front_back);

        assert_eq!(pop_front_back.pop_front(), Some("front"));
        assert_eq!(pop_front_back.pop_back(), Some("back"));
    }

    {
        let mut pop_back_front = SliceDeque::new_in(vec!["", "", ""]);
        push_back_then_front(&mut pop_back_front);

        assert_eq!(pop_back_front.pop_back(), Some("back"));
        assert_eq!(pop_back_front.pop_front(), Some("front"));
    }

    {
        let mut pop_back_back = SliceDeque::new_in(vec!["", "", ""]);
        push_back_then_front(&mut pop_back_back);

        assert_eq!(pop_back_back.pop_back(), Some("back"));
        assert_eq!(pop_back_back.pop_back(), Some("front"));
    }
}

#[test]
fn slice_deque_clear_makes_empty() {
    let mut deque = SliceDeque::new_in(vec![0, 0, 0, 0]);

    deque.push_back(0).unwrap();
    deque.push_back(1).unwrap();
    deque.push_back(2).unwrap();
    deque.push_back(3).unwrap();

    assert_eq!(deque.len(), 4);
    deque.clear();
    assert!(deque.is_empty());

    deque.push_front(0).unwrap();
    deque.push_front(1).unwrap();
    deque.push_front(2).unwrap();
    deque.push_front(3).unwrap();

    assert_eq!(deque.len(), 4);
    deque.clear();
    assert!(deque.is_empty());

    deque.push_back(0).unwrap();
    deque.push_back(1).unwrap();
    deque.push_front(2).unwrap();
    deque.push_front(3).unwrap();

    assert_eq!(deque.len(), 4);
    deque.clear();
    assert!(deque.is_empty());

    deque.push_front(0).unwrap();
    deque.push_front(1).unwrap();
    deque.push_back(2).unwrap();
    deque.push_back(3).unwrap();

    assert_eq!(deque.len(), 4);
    deque.clear();
    assert!(deque.is_empty());
}

#[test]
fn slice_deque_truncate_shorter_has_no_effect() {
    let mut deque = SliceDeque::new_in(vec![0, 0, 0, 0, 0]);

    deque.push_back(42).unwrap();
    assert_eq!(deque.len(), 1);
    deque.truncate(5);
    assert_eq!(deque.len(), 1);
}

#[test]
fn slice_deque_truncate_longer_reduces_len() {
    let mut deque = SliceDeque::new_in(vec![0, 0, 0, 0, 0, 0, 0, 0]);

    deque.push_back(5).unwrap();
    deque.push_back(10).unwrap();
    deque.push_back(15).unwrap();
    deque.push_back(20).unwrap();
    deque.push_back(25).unwrap();
    deque.push_back(30).unwrap();
    deque.push_back(35).unwrap();

    assert_eq!(deque.len(), 7);
    deque.truncate(4);
    assert_eq!(deque.len(), 4);
    assert_eq!(deque.front(), Some(&5));
    assert_eq!(deque.back(), Some(&20));
}

#[test]
fn slice_deque_iter_zero_capacity() {
    let deque: SliceDeque<()> = SliceDeque::new_in(Vec::new());
    let mut iter = deque.iter();

    assert!(iter.next().is_none());
    assert!(iter.next_back().is_none());
}

#[test]
fn slice_deque_iter_forward() {
    let mut deque = SliceDeque::new_in(vec![0, 0, 0, 0, 0]);
    deque.push_back(0).unwrap();
    deque.push_back(1).unwrap();
    deque.push_back(2).unwrap();
    deque.push_back(3).unwrap();
    deque.push_back(4).unwrap();

    let mut iter = deque.iter();
    assert_eq!(iter.next(), Some(&0));
    assert_eq!(iter.next(), Some(&1));
    assert_eq!(iter.next(), Some(&2));
    assert_eq!(iter.next(), Some(&3));
    assert_eq!(iter.next(), Some(&4));
    assert_eq!(iter.next(), None);
}

#[test]
fn slice_deque_iter_reverse() {
    let mut deque = SliceDeque::new_in(vec![0, 0, 0, 0, 0]);
    deque.push_back(4).unwrap();
    deque.push_back(3).unwrap();
    deque.push_back(2).unwrap();
    deque.push_back(1).unwrap();
    deque.push_back(0).unwrap();

    let mut iter = deque.iter();
    assert_eq!(iter.next_back(), Some(&0));
    assert_eq!(iter.next_back(), Some(&1));
    assert_eq!(iter.next_back(), Some(&2));
    assert_eq!(iter.next_back(), Some(&3));
    assert_eq!(iter.next_back(), Some(&4));
    assert_eq!(iter.next_back(), None);
}

#[test]
fn slice_deque_iter_alternate() {
    let mut deque = SliceDeque::new_in(vec![0, 0, 0, 0, 0]);
    deque.push_back(0).unwrap();
    deque.push_back(1).unwrap();
    deque.push_back(2).unwrap();
    deque.push_back(3).unwrap();
    deque.push_back(4).unwrap();

    let mut iter = deque.iter();
    assert_eq!(iter.next(), Some(&0));
    assert_eq!(iter.next_back(), Some(&4));
    assert_eq!(iter.next(), Some(&1));
    assert_eq!(iter.next_back(), Some(&3));
    assert_eq!(iter.next(), Some(&2));
    assert_eq!(iter.next_back(), None);
    assert_eq!(iter.next(), None);
}

#[test]
fn slice_deque_iter_has_same_order_as_slices() {
    let mut deque = SliceDeque::new_in(vec![0, 0, 0, 0, 0, 0]);

    deque.push_front(3).unwrap();
    deque.push_front(5).unwrap();
    deque.push_front(7).unwrap();
    deque.push_back(2).unwrap();
    deque.push_back(4).unwrap();
    deque.push_back(6).unwrap();

    let from_slices = {
        let mut v = Vec::new();

        let (first, second) = deque.as_slices();
        for &item in first.iter().chain(second.iter()) {
            v.push(item);
        }

        v
    };

    let from_iter = {
        let mut v = Vec::new();
        let mut iter = deque.iter();
        while let Some(&item) = iter.next() {
            v.push(item);
        }
        v
    };

    assert_eq!(from_slices, from_iter);
}

#[test]
fn slice_deque_slices_and_mut_slices_are_eq() {
    let mut deque = SliceDeque::new_in(vec![0, 0, 0, 0, 0, 0]);

    deque.push_front(3).unwrap();
    deque.push_front(5).unwrap();
    deque.push_front(7).unwrap();
    deque.push_back(2).unwrap();
    deque.push_back(4).unwrap();
    deque.push_back(6).unwrap();

    let (s1, s2) = deque.as_slices();
    let v1 = Vec::from(s1);
    let v2 = Vec::from(s2);

    let (m1, m2) = deque.as_mut_slices();
    assert_eq!(v1, m1);
    assert_eq!(v2, m2);
}

#[test]
fn slice_deque_drain_zero_capacity() {
    let mut deque: SliceDeque<()> = SliceDeque::new_in(Vec::new());
    assert!(deque.drain_front(1).is_none());
    assert!(deque.drain_back(1).is_none());
    assert!(deque.drain_front(0).unwrap().next().is_none());
    assert!(deque.drain_back(0).unwrap().next().is_none());
}

#[test]
fn slice_deque_drain_runs_destructors_when_consumed() {
    let rc = Rc::new("refcount");

    let mut deque = SliceDeque::new_in(vec![Rc::new(""), Rc::new(""), Rc::new("")]);
    deque.push_back(rc.clone()).unwrap();
    deque.push_back(rc.clone()).unwrap();
    deque.push_back(rc.clone()).unwrap();
    let mut drain = deque.drain_front(3).unwrap();
    while let Some(item) = drain.next() {
        drop(item);
    }

    assert_eq!(Rc::strong_count(&rc), 1);
}

#[test]
fn slice_deque_drain_runs_destructors_when_dropped() {
    let rc = Rc::new("refcount");

    let mut deque = SliceDeque::new_in(vec![Rc::new(""), Rc::new(""), Rc::new("")]);
    deque.push_back(rc.clone()).unwrap();
    deque.push_back(rc.clone()).unwrap();
    deque.push_back(rc.clone()).unwrap();
    let drain = deque.drain_front(3).unwrap();
    drop(drain);

    assert_eq!(Rc::strong_count(&rc), 1);
}

#[test]
fn slice_deque_drain_removes_elements_when_leaked() {
    let populate = |deque: &mut SliceDeque<i32>| {
        deque.push_back(0).unwrap();
        deque.push_back(1).unwrap();
        deque.push_back(2).unwrap();
        deque.push_back(3).unwrap();
        deque.push_back(4).unwrap();
    };

    {
        let mut from_front = SliceDeque::new_in(vec![0, 0, 0, 0, 0]);
        populate(&mut from_front);

        let drain = from_front.drain_front(3).unwrap();
        mem::forget(drain);
        assert_eq!(from_front.len(), 2);
        let mut iter = from_front.iter();
        assert_eq!(iter.next(), Some(&3));
        assert_eq!(iter.next(), Some(&4));
    }

    {
        let mut from_back = SliceDeque::new_in(vec![0, 0, 0, 0, 0]);
        populate(&mut from_back);

        let drain = from_back.drain_back(3).unwrap();
        mem::forget(drain);
        assert_eq!(from_back.len(), 2);
        let mut iter = from_back.iter();
        assert_eq!(iter.next(), Some(&0));
        assert_eq!(iter.next(), Some(&1));
    }
}
