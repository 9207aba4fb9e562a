//! A double-ended queue with fixed capacity, backed by a caller-supplied
//! buffer.

use vstd::prelude::*;

use crate::base::{BaseDeque, DequeDrain, DequeIter};
use crate::CapacityError;

verus! {

/// A double-ended queue with fixed capacity, backed by a buffer handed over
/// at construction.
///
/// The capacity of the deque is the length of the buffer, fixed at run time.
#[derive(Debug)]
pub struct SliceDeque<T> where T: Default {
    base: BaseDeque<T>,
}

impl<T> View for SliceDeque<T> where T: Default {
    type V = Seq<T>;

    /// The elements of the deque in logical front-to-back order.
    closed spec fn view(&self) -> Seq<T> {
        self.base@
    }
}

impl<T> SliceDeque<T> where T: Default {
    /// Well-formedness: the underlying layout fits the capacity.
    pub closed spec fn wf(self) -> bool {
        self.base.wf()
    }

    /// The fixed capacity of the deque.
    pub closed spec fn spec_capacity(self) -> int {
        self.base.spec_capacity()
    }

    /// The number of elements in the first slice returned by
    /// [`Self::as_slices`].
    pub closed spec fn spec_front_len(self) -> int {
        self.base.spec_front_len()
    }

    /// A well-formed deque never holds more elements than its capacity.
    pub proof fn lemma_len_within_capacity(self)
        requires
            self.wf(),
        ensures
            self@.len() <= self.spec_capacity(),
    {
        self.base.lemma_len_within_capacity();
    }

    /// The two slices returned by [`Self::as_slices`], concatenated, equal
    /// the sequence of elements that the forward iterator yields.
    pub proof fn lemma_slices_match_iteration(self)
        requires
            self.wf(),
        ensures
            self@.take(self.spec_front_len()) + self@.skip(self.spec_front_len())
                == crate::popped_front_values(self@, self@.len() as int),
    {
        self.base.lemma_front_len_in_range();
        assert(self@.take(self.spec_front_len()) + self@.skip(self.spec_front_len()) =~= self@);
        crate::lemma_popped_front_values_all(self@);
    }

    /// Creates an empty `SliceDeque` backed by the provided buffer; the
    /// buffer's length becomes the capacity.
    ///
    /// The values in the buffer are discarded and replaced with the default
    /// value of `T`.
    pub fn new_in(buffer: Vec<T>) -> (r: SliceDeque<T>)
        ensures
            r.wf(),
            r@ == Seq::<T>::empty(),
            r.spec_capacity() == buffer.len(),
    {
        SliceDeque { base: BaseDeque::from_buffer(buffer) }
    }

    /// Returns the maximum number of elements the deque may hold.
    ///
    /// This is the length of the backing buffer.
    pub fn capacity(&self) -> (r: usize)
        ensures
            r == self.spec_capacity(),
    {
        self.base.capacity()
    }

    /// Returns the number of elements in the deque.
    pub fn len(&self) -> (r: usize)
        requires
            self.wf(),
        ensures
            r == self@.len(),
    {
        self.base.len()
    }

    /// Returns `true` if the deque contains no elements.
    pub fn is_empty(&self) -> (r: bool)
        requires
            self.wf(),
        ensures
            r == (self@.len() == 0),
    {
        self.base.is_empty()
    }

    /// Returns `true` if the deque is at capacity.
    pub fn is_full(&self) -> (r: bool)
        requires
            self.wf(),
        ensures
            r == (self@.len() == self.spec_capacity()),
    {
        self.base.is_full()
    }

    /// Returns a reference to the first element in the deque, or `None` if
    /// the deque is empty.
    pub fn front(&self) -> (r: Option<&T>)
        requires
            self.wf(),
        ensures
            self@.len() == 0 ==> r is None,
            self@.len() > 0 ==> (r matches Some(e) && *e == self@[0]),
    {
        self.base.front()
    }

    /// Returns a mutable reference to the first element in the deque, or
    /// `None` if the deque is empty.
    pub fn front_mut(&mut self) -> (r: Option<&mut T>)
        requires
            old(self).wf(),
        ensures
            old(self)@.len() == 0 ==> (r is None && *final(self) == *old(self)),
            old(self)@.len() > 0 ==> r.is_some() && *r.unwrap() == old(self)@[0] && final(self)@
                =~= old(self)@.update(0, *final(r.unwrap())) && final(self).wf()
                && final(self).spec_capacity() == old(self).spec_capacity(),
    {
        self.base.front_mut()
    }

    /// Returns a reference to the last element in the deque, or `None` if
    /// the deque is empty.
    pub fn back(&self) -> (r: Option<&T>)
        requires
            self.wf(),
        ensures
            self@.len() == 0 ==> r is None,
            self@.len() > 0 ==> (r matches Some(e) && *e == self@[self@.len() - 1]),
    {
        self.base.back()
    }

    /// Returns a mutable reference to the last element in the deque, or
    /// `None` if the deque is empty.
    pub fn back_mut(&mut self) -> (r: Option<&mut T>)
        requires
            old(self).wf(),
        ensures
            old(self)@.len() == 0 ==> (r is None && *final(self) == *old(self)),
            old(self)@.len() > 0 ==> r.is_some() && *r.unwrap() == old(self)@[old(self)@.len() - 1]
                && final(self)@ =~= old(self)@.update(old(self)@.len() - 1, *final(r.unwrap()))
                && final(self).wf() && final(self).spec_capacity() == old(self).spec_capacity(),
    {
        self.base.back_mut()
    }

    /// Returns a pair of slices which contain, in order, the elements of the
    /// `SliceDeque`.
    pub fn as_slices(&self) -> (r: (&[T], &[T]))
        requires
            self.wf(),
        ensures
            0 <= self.spec_front_len() <= self@.len(),
            r.0@ == self@.take(self.spec_front_len()),
            r.1@ == self@.skip(self.spec_front_len()),
            r.0@ + r.1@ == self@,
    {
        self.base.as_slices()
    }

    /// Returns a pair of mutable slices which contain, in order, the elements
    /// of the `SliceDeque`.
    pub fn as_mut_slices(&mut self) -> (r: (&mut [T], &mut [T]))
        requires
            old(self).wf(),
        ensures
            0 <= old(self).spec_front_len() <= old(self)@.len(),
            r.0@ == old(self)@.take(old(self).spec_front_len()),
            r.1@ == old(self)@.skip(old(self).spec_front_len()),
            (final(r.0)@.len() == r.0@.len() && final(r.1)@.len() == r.1@.len()) ==> (
            final(self).wf() && final(self)@ =~= final(r.0)@ + final(r.1)@),
    {
        self.base.as_mut_slices()
    }

    /// Prepends an element to the deque.
    ///
    /// If the deque is at capacity, an `Err` containing the pushed value is
    /// returned and the deque is left unchanged.
    pub fn push_front(&mut self, item: T) -> (r: Result<(), CapacityError<T>>)
        requires
            old(self).wf(),
        ensures
            final(self).wf(),
            final(self).spec_capacity() == old(self).spec_capacity(),
            old(self)@.len() < old(self).spec_capacity() ==> (r is Ok && final(self)@ == seq![
                item,
            ] + old(self)@),
            old(self)@.len() == old(self).spec_capacity() ==> (r matches Err(e) && e@ == item
                && *final(self) == *old(self)),
    {
        self.base.push_front(item)
    }

    /// Appends an element to the deque.
    ///
    /// If the deque is at capacity, an `Err` containing the pushed value is
    /// returned and the deque is left unchanged.
    pub fn push_back(&mut self, item: T) -> (r: Result<(), CapacityError<T>>)
        requires
            old(self).wf(),
        ensures
            final(self).wf(),
            final(self).spec_capacity() == old(self).spec_capacity(),
            old(self)@.len() < old(self).spec_capacity() ==> (r is Ok && final(self)@ == old(
                self,
            )@.push(item)),
            old(self)@.len() == old(self).spec_capacity() ==> (r matches Err(e) && e@ == item
                && *final(self) == *old(self)),
    {
        self.base.push_back(item)
    }

    /// Removes and returns the first element of the deque, or `None` if the
    /// deque is empty.
    pub fn pop_front(&mut self) -> (r: Option<T>)
        requires
            old(self).wf(),
        ensures
            final(self).wf(),
            final(self).spec_capacity() == old(self).spec_capacity(),
            old(self)@.len() == 0 ==> (r is None && *final(self) == *old(self)),
            old(self)@.len() > 0 ==> (r matches Some(v) && v == old(self)@[0] && final(self)@
                == old(self)@.skip(1)),
    {
        self.base.pop_front()
    }

    /// Removes and returns the last element of the deque, or `None` if the
    /// deque is empty.
    pub fn pop_back(&mut self) -> (r: Option<T>)
        requires
            old(self).wf(),
        ensures
            final(self).wf(),
            final(self).spec_capacity() == old(self).spec_capacity(),
            old(self)@.len() == 0 ==> (r is None && *final(self) == *old(self)),
            old(self)@.len() > 0 ==> (r matches Some(v) && v == old(self)@[old(self)@.len() - 1]
                && final(self)@ == old(self)@.drop_last()),
    {
        self.base.pop_back()
    }

    /// Clears the `SliceDeque`, removing all values.
    pub fn clear(&mut self)
        requires
            old(self).wf(),
        ensures
            final(self).wf(),
            final(self).spec_capacity() == old(self).spec_capacity(),
            final(self)@ == Seq::<T>::empty(),
    {
        self.base.clear()
    }

    /// Shortens the `SliceDeque`, keeping the first `len` elements and
    /// dropping the rest.
    ///
    /// If `len` is greater than the deque's current length, this has no
    /// effect.
    pub fn truncate(&mut self, len: usize)
        requires
            old(self).wf(),
        ensures
            final(self).wf(),
            final(self).spec_capacity() == old(self).spec_capacity(),
            len < old(self)@.len() ==> final(self)@ == old(self)@.take(len as int),
            len >= old(self)@.len() ==> *final(self) == *old(self),
    {
        self.base.truncate(len)
    }

    /// Returns an iterator over the elements of the deque.
    pub fn iter(&self) -> (r: Iter<'_, T>)
        requires
            self.wf(),
        ensures
            r.wf(),
            r.remaining() == self@,
    {
        Iter { inner: DequeIter::new(&self.base) }
    }

    /// Drains `n` elements from the front of the deque, returning a cursor
    /// that yields them in front-to-back order.
    ///
    /// If `n` exceeds the deque's length, `None` is returned and the deque is
    /// left unchanged. The elements are removed from the deque as soon as
    /// this method returns; a cursor that is dropped early drops its
    /// unyielded elements with it.
    pub fn drain_front(&mut self, n: usize) -> (r: Option<DrainFront<T>>)
        requires
            old(self).wf(),
        ensures
            final(self).wf(),
            final(self).spec_capacity() == old(self).spec_capacity(),
            n > old(self)@.len() ==> (r is None && *final(self) == *old(self)),
            n <= old(self)@.len() ==> (r matches Some(d) && d@ == old(self)@.take(n as int)
                && final(self)@ == old(self)@.skip(n as int)),
            n == 0 ==> *final(self) == *old(self),
    {
        match self.base.drain_front(n) {
            Some(inner) => Some(DrainFront { inner }),
            None => None,
        }
    }

    /// Drains `n` elements from the back of the deque, returning a cursor
    /// that yields them in back-to-front (removal) order.
    ///
    /// If `n` exceeds the deque's length, `None` is returned and the deque is
    /// left unchanged. The elements are removed from the deque as soon as
    /// this method returns; a cursor that is dropped early drops its
    /// unyielded elements with it.
    pub fn drain_back(&mut self, n: usize) -> (r: Option<DrainBack<T>>)
        requires
            old(self).wf(),
        ensures
            final(self).wf(),
            final(self).spec_capacity() == old(self).spec_capacity(),
            n > old(self)@.len() ==> (r is None && *final(self) == *old(self)),
            n <= old(self)@.len() ==> (r matches Some(d) && d@ == Seq::new(
                n as nat,
                |i: int| old(self)@[old(self)@.len() - 1 - i],
            ) && final(self)@ == old(self)@.take(old(self)@.len() - n)),
            n == 0 ==> *final(self) == *old(self),
    {
        match self.base.drain_back(n) {
            Some(inner) => Some(DrainBack { inner }),
            None => None,
        }
    }
}

/// An immutable iterator over a `SliceDeque<T>`.
///
/// This struct is created by the [`iter`] method on [`SliceDeque`].
///
/// [`iter`]: SliceDeque::iter
pub struct Iter<'a, T> where T: Default {
    inner: DequeIter<'a, T>,
}

impl<'a, T> Iter<'a, T> where T: Default {
    /// Well-formedness of the iterator.
    pub closed spec fn wf(self) -> bool {
        self.inner.wf()
    }

    /// The elements not yet yielded, in front-to-back order.
    pub closed spec fn remaining(self) -> Seq<T> {
        self.inner.remaining()
    }

    /// Yields a reference to the next element from the front, or `None` when
    /// the iterator is exhausted.
    pub fn next(&mut self) -> (r: Option<&'a T>)
        requires
            old(self).wf(),
        ensures
            final(self).wf(),
            old(self).remaining().len() == 0 ==> (r is None && *final(self) == *old(self)),
            old(self).remaining().len() > 0 ==> (r matches Some(e) && *e == old(
                self,
            ).remaining()[0] && final(self).remaining() == old(self).remaining().skip(1)),
    {
        self.inner.next()
    }

    /// Yields a reference to the next element from the back, or `None` when
    /// the iterator is exhausted.
    pub fn next_back(&mut self) -> (r: Option<&'a T>)
        requires
            old(self).wf(),
        ensures
            final(self).wf(),
            old(self).remaining().len() == 0 ==> (r is None && *final(self) == *old(self)),
            old(self).remaining().len() > 0 ==> (r matches Some(e) && *e == old(self).remaining()[
                old(self).remaining().len() - 1] && final(self).remaining() == old(
                self,
            ).remaining().drop_last()),
    {
        self.inner.next_back()
    }
}

/// A draining cursor which removes elements from the front of a
/// `SliceDeque<T>`.
///
/// This struct is created by the [`drain_front`] method on [`SliceDeque`].
///
/// [`drain_front`]: SliceDeque::drain_front
pub struct DrainFront<T> {
    inner: DequeDrain<T>,
}

impl<T> View for DrainFront<T> {
    type V = Seq<T>;

    /// The elements still to be yielded, in yield order.
    closed spec fn view(&self) -> Seq<T> {
        self.inner@
    }
}

impl<T> DrainFront<T> {
    /// Yields the next drained element, or `None` when the cursor is
    /// exhausted.
    pub fn next(&mut self) -> (r: Option<T>)
        ensures
            old(self)@.len() == 0 ==> (r is None && *final(self) == *old(self)),
            old(self)@.len() > 0 ==> (r matches Some(v) && v == old(self)@[0] && final(self)@
                == old(self)@.skip(1)),
    {
        self.inner.next()
    }
}

/// A draining cursor which removes elements from the back of a
/// `SliceDeque<T>`.
///
/// This struct is created by the [`drain_back`] method on [`SliceDeque`].
///
/// [`drain_back`]: SliceDeque::drain_back
pub struct DrainBack<T> {
    inner: DequeDrain<T>,
}

impl<T> View for DrainBack<T> {
    type V = Seq<T>;

    /// The elements still to be yielded, in yield order.
    closed spec fn view(&self) -> Seq<T> {
        self.inner@
    }
}

impl<T> DrainBack<T> {
    /// Yields the next drained element, or `None` when the cursor is
    /// exhausted.
    pub fn next(&mut self) -> (r: Option<T>)
        ensures
            old(self)@.len() == 0 ==> (r is None && *final(self) == *old(self)),
            old(self)@.len() > 0 ==> (r matches Some(v) && v == old(self)@[0] && final(self)@
                == old(self)@.skip(1)),
    {
        self.inner.next()
    }
}

} // verus!
