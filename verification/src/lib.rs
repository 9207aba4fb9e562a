//! Fixed-capacity double-ended queues (ring buffers) that keep their elements
//! in a contiguous block of storage, with verified layout arithmetic.
//!
//! The crate provides [`ArrayDeque`], whose capacity is a compile-time
//! constant, and [`SliceDeque`], whose capacity is fixed when the backing
//! buffer is handed over. Both are driven by the same verified core: a small
//! occupancy state machine ([`meta::Meta`]) that records which storage slots
//! are occupied and computes the slot to read or write for every operation,
//! and a shared deque algorithm over a flat block of slots.
//!
//! Unused slots always hold a well-defined filler value (the element type's
//! [`Default`] value), never uninitialized memory: removing an element swaps
//! the filler into its slot and hands the previous contents back.

pub mod array_deque;
mod base;
pub mod meta;
pub mod slice_deque;

use vstd::prelude::*;
use vstd::std_specs::cmp::PartialEqSpec;

pub use crate::array_deque::ArrayDeque;
pub use crate::slice_deque::SliceDeque;

verus! {

/// An error that occurs when attempting to add an item to a deque which is
/// already full. It carries the rejected element back to the caller.
#[derive(Debug)]
pub struct CapacityError<T> {
    item: T,
}

impl<T> View for CapacityError<T> {
    type V = T;

    /// The rejected element.
    closed spec fn view(&self) -> T {
        self.item
    }
}

impl<T> CapacityError<T> {
    pub(crate) fn new(item: T) -> (r: CapacityError<T>)
        ensures
            r@ == item,
    {
        CapacityError { item }
    }

    /// Returns a reference to the rejected element.
    pub fn get(&self) -> (r: &T)
        ensures
            *r == self@,
    {
        &self.item
    }

    /// Consumes the error, returning the rejected element.
    pub fn into_inner(self) -> (r: T)
        ensures
            r == self@,
    {
        self.item
    }
}

/// Designates one of the two ends of a deque.
pub(crate) enum DequeEnd {
    Front,
    Back,
}

/// Element-by-element equality of two views: both hold the same number of
/// elements, and the elements at each position compare equal by the element
/// type's equality.
pub open spec fn seq_eq_by_elements<T: PartialEq>(a: Seq<T>, b: Seq<T>) -> bool {
    a.len() == b.len() && (forall|i: int| 0 <= i < a.len() ==> #[trigger] a[i].eq_spec(&b[i]))
}

/// The deque view after pushing each element of `xs`, in order, to the back
/// of a deque whose view is `v`: exactly the effect that `push_back`'s
/// contract gives, iterated.
pub open spec fn pushed_back_all<T>(v: Seq<T>, xs: Seq<T>) -> Seq<T>
    decreases xs.len(),
{
    if xs.len() == 0 {
        v
    } else {
        pushed_back_all(v.push(xs[0]), xs.skip(1))
    }
}

/// The deque view after pushing each element of `xs`, in order, to the front
/// of a deque whose view is `v`: exactly the effect that `push_front`'s
/// contract gives, iterated.
pub open spec fn pushed_front_all<T>(v: Seq<T>, xs: Seq<T>) -> Seq<T>
    decreases xs.len(),
{
    if xs.len() == 0 {
        v
    } else {
        pushed_front_all(seq![xs[0]] + v, xs.skip(1))
    }
}

/// The values yielded by `k` successive `pop_front` calls (equally: forward
/// iterator steps) on a deque whose view is `v`: exactly the results that
/// `pop_front`'s contract gives, iterated.
pub open spec fn popped_front_values<T>(v: Seq<T>, k: int) -> Seq<T>
    decreases k,
{
    if k <= 0 {
        Seq::empty()
    } else {
        seq![v[0]] + popped_front_values(v.skip(1), k - 1)
    }
}

/// The values yielded by `k` successive `pop_back` calls on a deque whose
/// view is `v`: exactly the results that `pop_back`'s contract gives,
/// iterated.
pub open spec fn popped_back_values<T>(v: Seq<T>, k: int) -> Seq<T>
    decreases k,
{
    if k <= 0 {
        Seq::empty()
    } else {
        seq![v[v.len() - 1]] + popped_back_values(v.drop_last(), k - 1)
    }
}

/// Pushing a sequence of elements to the back appends it to the view.
pub proof fn lemma_pushed_back_all<T>(v: Seq<T>, xs: Seq<T>)
    ensures
        pushed_back_all(v, xs) == v + xs,
    decreases xs.len(),
{
    if xs.len() == 0 {
        assert(pushed_back_all(v, xs) =~= v + xs);
    } else {
        lemma_pushed_back_all(v.push(xs[0]), xs.skip(1));
        assert(v.push(xs[0]) + xs.skip(1) =~= v + xs);
    }
}

/// Pushing a sequence of elements to the front prepends it to the view in
/// reverse order.
pub proof fn lemma_pushed_front_all<T>(v: Seq<T>, xs: Seq<T>)
    ensures
        pushed_front_all(v, xs) == xs.reverse() + v,
    decreases xs.len(),
{
    if xs.len() == 0 {
        assert(pushed_front_all(v, xs) =~= xs.reverse() + v);
    } else {
        lemma_pushed_front_all(seq![xs[0]] + v, xs.skip(1));
        assert(xs.skip(1).reverse() + (seq![xs[0]] + v) =~= xs.reverse() + v);
    }
}

/// Popping every element from the front yields the whole view, in order.
pub proof fn lemma_popped_front_values_all<T>(v: Seq<T>)
    ensures
        popped_front_values(v, v.len() as int) == v,
    decreases v.len(),
{
    if v.len() > 0 {
        lemma_popped_front_values_all(v.skip(1));
        assert(seq![v[0]] + v.skip(1) =~= v);
    } else {
        assert(popped_front_values(v, 0) =~= v);
    }
}

/// Popping every element from the back yields the whole view, in reverse
/// order.
pub proof fn lemma_popped_back_values_all<T>(v: Seq<T>)
    ensures
        popped_back_values(v, v.len() as int) == v.reverse(),
    decreases v.len(),
{
    if v.len() > 0 {
        lemma_popped_back_values_all(v.drop_last());
        assert(seq![v[v.len() - 1]] + v.drop_last().reverse() =~= v.reverse());
    } else {
        assert(popped_back_values(v, 0) =~= v.reverse());
    }
}

/// Round trip, back to front: pushing the elements of `xs` to the back of an
/// empty deque and then popping from the front yields `xs` itself, in order.
pub proof fn lemma_round_trip_back_then_front<T>(xs: Seq<T>)
    ensures
        popped_front_values(pushed_back_all(Seq::empty(), xs), xs.len() as int) == xs,
{
    lemma_pushed_back_all(Seq::empty(), xs);
    assert(Seq::empty() + xs =~= xs);
    lemma_popped_front_values_all(xs);
}

/// Round trip, front to back: pushing the elements of `xs` to the front of an
/// empty deque and then popping from the back yields `xs` itself, in order.
pub proof fn lemma_round_trip_front_then_back<T>(xs: Seq<T>)
    ensures
        popped_back_values(pushed_front_all(Seq::empty(), xs), xs.len() as int) == xs,
{
    lemma_pushed_front_all(Seq::empty(), xs);
    assert(xs.reverse() + Seq::empty() =~= xs.reverse());
    lemma_popped_back_values_all(xs.reverse());
    assert(xs.reverse().reverse() =~= xs);
}

} // verus!
