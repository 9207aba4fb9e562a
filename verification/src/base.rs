//! The deque algorithm shared by both storage backings.
//!
//! [`BaseDeque`] couples a [`Meta`] occupancy state with a flat block of
//! element slots. Every operation asks the state machine for the slot index
//! to read or write and then touches exactly that slot, so the whole
//! algorithm is shared verbatim by the array-backed and the buffer-backed
//! deque. Freed slots are overwritten with the element type's default value,
//! so no slot ever holds stale data that the deque still owns.

use vstd::prelude::*;

use vstd::std_specs::cmp::PartialEqSpec;

use crate::meta::{Meta, MetaDrain, MetaLayout};
use crate::CapacityError;

verus! {

/// A fixed-capacity double-ended queue over a flat block of element slots.
#[derive(Clone, Debug)]
pub(crate) struct BaseDeque<T> where T: Default {
    pub(crate) meta: Meta,
    pub(crate) items: Vec<T>,
}

impl<T> View for BaseDeque<T> where T: Default {
    type V = Seq<T>;

    /// The elements of the deque in logical front-to-back order.
    closed spec fn view(&self) -> Seq<T> {
        Seq::new(self.meta.spec_len() as nat, |i: int| self.items@[self.meta.index_at(i)])
    }
}

impl<T> BaseDeque<T> where T: Default {
    /// Well-formedness: the layout fits the capacity, and the capacity is the
    /// number of slots.
    pub closed spec fn wf(self) -> bool {
        self.meta.wf() && self.meta.spec_capacity() == self.items@.len()
    }

    /// The fixed capacity of the deque.
    pub closed spec fn spec_capacity(self) -> int {
        self.meta.spec_capacity()
    }

    /// A well-formed deque never holds more elements than its capacity.
    pub proof fn lemma_len_within_capacity(self)
        requires
            self.wf(),
        ensures
            self@.len() <= self.spec_capacity(),
    {
        self.meta.lemma_wf_bounds();
        assert(self@.len() == self.meta.spec_len());
    }

    /// Constructs an empty deque with `capacity` slots, each holding the
    /// filler value.
    pub fn with_capacity(capacity: usize) -> (r: BaseDeque<T>)
        ensures
            r.wf(),
            r@ == Seq::<T>::empty(),
            r.spec_capacity() == capacity,
    {
        let mut items: Vec<T> = Vec::new();
        let mut i: usize = 0;
        while i < capacity
            invariant
                i <= capacity,
                items@.len() == i,
            decreases capacity - i,
        {
            items.push(T::default());
            i = i + 1;
        }
        let r = BaseDeque { meta: Meta::empty(capacity), items };
        proof {
            assert(r@ =~= Seq::<T>::empty());
        }
        r
    }

    /// Constructs an empty deque over the given buffer; its length becomes
    /// the capacity. Every slot is reset to the filler value, discarding the
    /// buffer's previous contents.
    pub fn from_buffer(buffer: Vec<T>) -> (r: BaseDeque<T>)
        ensures
            r.wf(),
            r@ == Seq::<T>::empty(),
            r.spec_capacity() == buffer.len(),
    {
        let mut items = buffer;
        let capacity = items.len();
        let mut i: usize = 0;
        while i < capacity
            invariant
                i <= capacity,
                items@.len() == capacity,
            decreases capacity - i,
        {
            items[i] = T::default();
            i = i + 1;
        }
        let r = BaseDeque { meta: Meta::empty(capacity), items };
        proof {
            assert(r@ =~= Seq::<T>::empty());
        }
        r
    }

    /// Returns the maximum number of elements the deque may hold.
    pub fn capacity(&self) -> (r: usize)
        ensures
            r == self.spec_capacity(),
    {
        self.meta.capacity()
    }

    /// Returns the number of elements in the deque.
    pub fn len(&self) -> (r: usize)
        requires
            self.wf(),
        ensures
            r == self@.len(),
    {
        self.meta.len()
    }

    /// Returns `true` if the deque contains no elements.
    pub fn is_empty(&self) -> (r: bool)
        requires
            self.wf(),
        ensures
            r == (self@.len() == 0),
    {
        matches!(self.meta.layout(), MetaLayout::Empty)
    }

    /// Returns `true` if the deque is at capacity.
    pub fn is_full(&self) -> (r: bool)
        requires
            self.wf(),
        ensures
            r == (self@.len() == self.spec_capacity()),
    {
        self.meta.len() == self.meta.capacity()
    }

    /// Returns a reference to the first element, or `None` if the deque is
    /// empty.
    pub fn front(&self) -> (r: Option<&T>)
        requires
            self.wf(),
        ensures
            self@.len() == 0 ==> r is None,
            self@.len() > 0 ==> (r matches Some(e) && *e == self@[0]),
    {
        proof {
            self.meta.lemma_wf_bounds();
        }
        match self.meta.front() {
            Some(idx) => Some(&self.items[idx]),
            None => None,
        }
    }

    /// Returns a reference to the last element, or `None` if the deque is
    /// empty.
    pub fn back(&self) -> (r: Option<&T>)
        requires
            self.wf(),
        ensures
            self@.len() == 0 ==> r is None,
            self@.len() > 0 ==> (r matches Some(e) && *e == self@[self@.len() - 1]),
    {
        proof {
            self.meta.lemma_wf_bounds();
        }
        match self.meta.back() {
            Some(idx) => Some(&self.items[idx]),
            None => None,
        }
    }

    /// Prepends an element. If the deque is at capacity, the rejected element
    /// is handed back in the error and the deque is left unchanged.
    pub fn push_front(&mut self, item: T) -> (r: Result<(), CapacityError<T>>)
        requires
            old(self).wf(),
        ensures
            final(self).wf(),
            final(self).spec_capacity() == old(self).spec_capacity(),
            old(self)@.len() < old(self).spec_capacity() ==> (r is Ok && final(self)@ == seq![
                item,
            ] + old(self)@),
            old(self)@.len() == old(self).spec_capacity() ==> (r matches Err(e) && e@ == item
                && *final(self) == *old(self)),
    {
        let ghost om = self.meta;
        let ghost oitems = self.items@;
        match self.meta.reserve_front() {
            Some(idx) => {
                self.items[idx] = item;
                proof {
                    assert(self.meta.indices() =~= om.indices().insert(0, idx as int));
                    lemma_view_after_insert(om, self.meta, oitems, self.items@, idx as int, 0);
                    assert(self@ =~= seq![item] + old(self)@);
                }
                Ok(())
            },
            None => Err(CapacityError::new(item)),
        }
    }

    /// Appends an element. If the deque is at capacity, the rejected element
    /// is handed back in the error and the deque is left unchanged.
    pub fn push_back(&mut self, item: T) -> (r: Result<(), CapacityError<T>>)
        requires
            old(self).wf(),
        ensures
            final(self).wf(),
            final(self).spec_capacity() == old(self).spec_capacity(),
            old(self)@.len() < old(self).spec_capacity() ==> (r is Ok && final(self)@ == old(
                self,
            )@.push(item)),
            old(self)@.len() == old(self).spec_capacity() ==> (r matches Err(e) && e@ == item
                && *final(self) == *old(self)),
    {
        let ghost om = self.meta;
        let ghost oitems = self.items@;
        match self.meta.reserve_back() {
            Some(idx) => {
                self.items[idx] = item;
                proof {
                    assert(self.meta.indices() =~= om.indices().insert(om.spec_len(), idx as int));
                    lemma_view_after_insert(
                        om,
                        self.meta,
                        oitems,
                        self.items@,
                        idx as int,
                        om.spec_len(),
                    );
                    assert(self@ =~= old(self)@.push(item));
                }
                Ok(())
            },
            None => Err(CapacityError::new(item)),
        }
    }
}

impl<T> BaseDeque<T> where T: Default {
    /// Removes and returns the first element, or `None` if the deque is
    /// empty. The freed slot is overwritten with the filler value.
    pub fn pop_front(&mut self) -> (r: Option<T>)
        requires
            old(self).wf(),
        ensures
            final(self).wf(),
            final(self).spec_capacity() == old(self).spec_capacity(),
            old(self)@.len() == 0 ==> (r is None && *final(self) == *old(self)),
            old(self)@.len() > 0 ==> (r matches Some(v) && v == old(self)@[0] && final(self)@
                == old(self)@.skip(1)),
    {
        let ghost om = self.meta;
        let ghost oitems = self.items@;
        match self.meta.free_front() {
            Some(idx) => {
                proof {
                    om.lemma_wf_bounds();
                }
                let mut taken = T::default();
                core::mem::swap(&mut taken, &mut self.items[idx]);
                proof {
                    assert(self.meta.indices() =~= om.indices().remove(0));
                    lemma_view_after_remove(om, self.meta, oitems, self.items@, idx as int, 0);
                    assert(self@ =~= old(self)@.skip(1));
                }
                Some(taken)
            },
            None => None,
        }
    }

    /// Removes and returns the last element, or `None` if the deque is
    /// empty. The freed slot is overwritten with the filler value.
    pub fn pop_back(&mut self) -> (r: Option<T>)
        requires
            old(self).wf(),
        ensures
            final(self).wf(),
            final(self).spec_capacity() == old(self).spec_capacity(),
            old(self)@.len() == 0 ==> (r is None && *final(self) == *old(self)),
            old(self)@.len() > 0 ==> (r matches Some(v) && v == old(self)@[old(self)@.len() - 1]
                && final(self)@ == old(self)@.drop_last()),
    {
        let ghost om = self.meta;
        let ghost oitems = self.items@;
        match self.meta.free_back() {
            Some(idx) => {
                proof {
                    om.lemma_wf_bounds();
                }
                let mut taken = T::default();
                core::mem::swap(&mut taken, &mut self.items[idx]);
                proof {
                    assert(self.meta.indices() =~= om.indices().remove(om.spec_len() - 1));
                    lemma_view_after_remove(
                        om,
                        self.meta,
                        oitems,
                        self.items@,
                        idx as int,
                        om.spec_len() - 1,
                    );
                    assert(self@ =~= old(self)@.drop_last());
                }
                Some(taken)
            },
            None => None,
        }
    }
}

impl<T> BaseDeque<T> where T: Default {
    /// Removes the first `n` elements, returning a cursor that yields them in
    /// front-to-back order, or `None` (leaving the deque unchanged) if `n`
    /// exceeds the current length. The freed slots are overwritten with the
    /// filler value.
    pub fn drain_front(&mut self, n: usize) -> (r: Option<DequeDrain<T>>)
        requires
            old(self).wf(),
        ensures
            final(self).wf(),
            final(self).spec_capacity() == old(self).spec_capacity(),
            n > old(self)@.len() ==> (r is None && *final(self) == *old(self)),
            n <= old(self)@.len() ==> (r matches Some(d) && d@ == old(self)@.take(n as int)
                && final(self)@ == old(self)@.skip(n as int)),
            n == 0 ==> *final(self) == *old(self),
    {
        let ghost om = self.meta;
        let ghost oitems = self.items@;
        let mut md = match self.meta.drain_front(n) {
            Some(md) => md,
            None => {
                return None;
            },
        };
        proof {
            om.lemma_wf_bounds();
        }
        if n == 0 {
            let vals: Vec<T> = Vec::new();
            proof {
                assert(vals@ =~= old(self)@.take(0));
                assert(self@ =~= old(self)@.skip(0));
            }
            return Some(DequeDrain { items: vals });
        }
        let ghost m1 = self.meta;
        let mut vals: Vec<T> = Vec::new();
        let mut i: usize = 0;
        while i < n
            invariant
                om.wf(),
                om.spec_capacity() == oitems.len(),
                n <= om.spec_len(),
                i <= n,
                self.meta == m1,
                self.items@.len() == oitems.len(),
                md.wf(),
                md.spec_capacity() == oitems.len(),
                vals@.len() == i,
                md.pending() == om.indices().subrange(i as int, n as int),
                vals@ == Seq::new(i as nat, |k: int| oitems[om.index_at(k)]),
                forall|j: int|
                    0 <= j < oitems.len() && (forall|k: int|
                        0 <= k < i ==> #[trigger] om.index_at(k) != j)
                        ==> #[trigger] self.items@[j] == oitems[j],
            decreases n - i,
        {
            let ghost m = i as int;
            let ghost p0 = md.pending();
            let idx = match md.next() {
                Some(idx) => idx,
                None => {
                    proof {
                        assert(false);
                    }
                    0
                },
            };
            proof {
                assert(idx == p0[0] == om.indices()[m] == om.index_at(m));
                assert forall|k: int| 0 <= k < m implies #[trigger] om.index_at(k)
                    != idx as int by {}
                assert(self.items@[idx as int] == oitems[idx as int]);
            }
            let mut taken = T::default();
            core::mem::swap(&mut taken, &mut self.items[idx]);
            vals.push(taken);
            i = i + 1;
            proof {
                assert(md.pending() =~= om.indices().subrange(i as int, n as int));
                assert(vals@ =~= Seq::new(i as nat, |k: int| oitems[om.index_at(k)]));
            }
        }
        proof {
            assert(vals@.len() == n);
            assert(vals@ =~= old(self)@.take(n as int));
            assert(m1.indices().len() == m1.spec_len());
            assert forall|i: int| 0 <= i < m1.spec_len() implies #[trigger] self.items@[m1.index_at(
                i,
            )] == old(self)@[n + i] by {
                assert(m1.index_at(i) == m1.indices()[i]);
                assert(m1.indices()[i] == om.indices().skip(n as int)[i]);
                assert(m1.index_at(i) == om.index_at(n + i));
                assert forall|k: int| 0 <= k < n implies #[trigger] om.index_at(k) != om.index_at(
                    n + i,
                ) by {}
                assert(self.items@[om.index_at(n + i)] == oitems[om.index_at(n + i)]);
            }
            assert(self@ =~= old(self)@.skip(n as int));
        }
        Some(DequeDrain { items: vals })
    }

    /// Removes the last `n` elements, returning a cursor that yields them in
    /// back-to-front (removal) order, or `None` (leaving the deque unchanged)
    /// if `n` exceeds the current length. The freed slots are overwritten
    /// with the filler value.
    pub fn drain_back(&mut self, n: usize) -> (r: Option<DequeDrain<T>>)
        requires
            old(self).wf(),
        ensures
            final(self).wf(),
            final(self).spec_capacity() == old(self).spec_capacity(),
            n > old(self)@.len() ==> (r is None && *final(self) == *old(self)),
            n <= old(self)@.len() ==> (r matches Some(d) && d@ == Seq::new(
                n as nat,
                |i: int| old(self)@[old(self)@.len() - 1 - i],
            ) && final(self)@ == old(self)@.take(old(self)@.len() - n)),
            n == 0 ==> *final(self) == *old(self),
    {
        let ghost om = self.meta;
        let ghost oitems = self.items@;
        let mut md = match self.meta.drain_back(n) {
            Some(md) => md,
            None => {
                return None;
            },
        };
        proof {
            om.lemma_wf_bounds();
        }
        if n == 0 {
            let vals: Vec<T> = Vec::new();
            proof {
                assert(vals@ =~= Seq::new(0nat, |i: int| old(self)@[old(self)@.len() - 1 - i]));
                assert(self@ =~= old(self)@.take(old(self)@.len() as int));
            }
            return Some(DequeDrain { items: vals });
        }
        let ghost m1 = self.meta;
        let ghost olen = om.spec_len();
        let mut vals: Vec<T> = Vec::new();
        let mut i: usize = 0;
        while i < n
            invariant
                om.wf(),
                om.spec_capacity() == oitems.len(),
                n <= olen == om.spec_len(),
                i <= n,
                self.meta == m1,
                self.items@.len() == oitems.len(),
                md.wf(),
                md.spec_capacity() == oitems.len(),
                vals@.len() == i,
                md.pending() == Seq::new(
                    (n - i) as nat,
                    |k: int| om.index_at(olen - 1 - i - k),
                ),
                vals@ == Seq::new(i as nat, |k: int| oitems[om.index_at(olen - 1 - k)]),
                forall|j: int|
                    0 <= j < oitems.len() && (forall|k: int|
                        0 <= k < i ==> #[trigger] om.index_at(olen - 1 - k) != j)
                        ==> #[trigger] self.items@[j] == oitems[j],
            decreases n - i,
        {
            let ghost m = i as int;
            let ghost p0 = md.pending();
            let idx = match md.next() {
                Some(idx) => idx,
                None => {
                    proof {
                        assert(false);
                    }
                    0
                },
            };
            proof {
                assert(idx == p0[0] == om.index_at(olen - 1 - m));
                assert forall|k: int| 0 <= k < m implies #[trigger] om.index_at(olen - 1 - k)
                    != idx as int by {}
                assert(self.items@[idx as int] == oitems[idx as int]);
            }
            let mut taken = T::default();
            core::mem::swap(&mut taken, &mut self.items[idx]);
            vals.push(taken);
            i = i + 1;
            proof {
                assert(md.pending() =~= Seq::new(
                    (n - i) as nat,
                    |k: int| om.index_at(olen - 1 - i - k),
                ));
                assert(vals@ =~= Seq::new(i as nat, |k: int| oitems[om.index_at(olen - 1 - k)]));
            }
        }
        proof {
            assert(vals@.len() == n);
            assert(vals@ =~= Seq::new(n as nat, |i: int| old(self)@[old(self)@.len() - 1 - i]));
            assert(m1.indices().len() == m1.spec_len());
            assert forall|i: int| 0 <= i < m1.spec_len() implies #[trigger] self.items@[m1.index_at(
                i,
            )] == old(self)@[i] by {
                assert(m1.index_at(i) == m1.indices()[i]);
                assert(m1.indices()[i] == om.indices().take(olen - n)[i]);
                assert(m1.index_at(i) == om.index_at(i));
                assert forall|k: int| 0 <= k < n implies #[trigger] om.index_at(olen - 1 - k)
                    != om.index_at(i) by {}
                assert(self.items@[om.index_at(i)] == oitems[om.index_at(i)]);
            }
            assert(self@ =~= old(self)@.take(old(self)@.len() - n));
        }
        Some(DequeDrain { items: vals })
    }

    /// Removes all elements. Every freed slot is overwritten with the filler
    /// value.
    pub fn clear(&mut self)
        requires
            old(self).wf(),
        ensures
            final(self).wf(),
            final(self).spec_capacity() == old(self).spec_capacity(),
            final(self)@ == Seq::<T>::empty(),
    {
        let ghost ocap = self.meta.spec_capacity();
        let ghost oslots = self.items@.len();
        let n = self.meta.len();
        let mut md = self.meta.clear();
        let mut i: usize = 0;
        while i < n
            invariant
                self.meta.wf(),
                self.meta.spec_len() == 0,
                self.meta.spec_capacity() == ocap,
                self.items@.len() == oslots,
                md.wf(),
                md.spec_capacity() == oslots,
                ocap == oslots,
                i <= n,
                md.pending().len() == n - i,
            decreases n - i,
        {
            let idx = match md.next() {
                Some(idx) => idx,
                None => {
                    proof {
                        assert(false);
                    }
                    0
                },
            };
            self.items[idx] = T::default();
            i = i + 1;
        }
        proof {
            assert(self@ =~= Seq::<T>::empty());
        }
    }

    /// Shortens the deque to at most `len` elements, dropping the excess from
    /// the back. A no-op if `len` is at least the current length.
    pub fn truncate(&mut self, len: usize)
        requires
            old(self).wf(),
        ensures
            final(self).wf(),
            final(self).spec_capacity() == old(self).spec_capacity(),
            len < old(self)@.len() ==> final(self)@ == old(self)@.take(len as int),
            len >= old(self)@.len() ==> *final(self) == *old(self),
    {
        let cur = self.meta.len();
        if len < cur {
            let _ = self.drain_back(cur - len);
        }
    }
}

/// After releasing the slot at logical position `pos` (physical index `idx`)
/// and overwriting that slot alone, the deque reads the same element as
/// before at every remaining logical position.
proof fn lemma_view_after_remove<T>(
    om: Meta,
    nm: Meta,
    oitems: Seq<T>,
    nitems: Seq<T>,
    idx: int,
    pos: int,
)
    requires
        om.wf(),
        nm.wf(),
        om.spec_capacity() == oitems.len(),
        nm.spec_capacity() == oitems.len(),
        0 <= pos < om.spec_len(),
        idx == om.index_at(pos),
        nm.indices() == om.indices().remove(pos),
        nitems.len() == oitems.len(),
        forall|j: int| 0 <= j < oitems.len() && j != idx ==> #[trigger] nitems[j] == oitems[j],
    ensures
        nm.spec_len() == om.spec_len() - 1,
        forall|i: int|
            0 <= i < om.spec_len() - 1 ==> #[trigger] nitems[nm.index_at(i)] == oitems[om.index_at(
                if i < pos {
                    i
                } else {
                    i + 1
                },
            )],
{
    assert(nm.indices().len() == nm.spec_len());
    assert(om.indices().len() == om.spec_len());
    om.lemma_wf_bounds();
    assert forall|i: int|
        0 <= i < om.spec_len() - 1 implies #[trigger] nitems[nm.index_at(i)] == oitems[om.index_at(
        if i < pos {
            i
        } else {
            i + 1
        },
    )] by {
        let j: int = if i < pos {
            i
        } else {
            i + 1
        };
        assert(nm.index_at(i) == nm.indices()[i]);
        assert(nm.indices()[i] == om.indices().remove(pos)[i]);
        assert(om.indices().remove(pos)[i] == om.indices()[j]);
        assert(om.indices()[j] == om.index_at(j));
        assert(om.index_at(j) != idx);
        assert(nitems[om.index_at(j)] == oitems[om.index_at(j)]);
    }
}

impl<T> BaseDeque<T> where T: Default {
    /// The number of elements in the first slice returned by
    /// [`Self::as_slices`]: the whole deque when the occupied region is
    /// contiguous, the front piece when it is wrapped.
    pub closed spec fn spec_front_len(self) -> int {
        match self.meta.layout {
            MetaLayout::Wrapped { wrap_len, .. } => self.meta.spec_len() - wrap_len,
            _ => self.meta.spec_len(),
        }
    }

    /// The first slice never covers more than the whole deque.
    pub proof fn lemma_front_len_in_range(self)
        requires
            self.wf(),
        ensures
            0 <= self.spec_front_len() <= self@.len(),
    {
        self.meta.lemma_wf_bounds();
        assert(self@.len() == self.meta.spec_len());
    }

    /// Returns a pair of slices which contain, in order, the elements of the
    /// deque: the elements of the first slice are followed by the elements of
    /// the second.
    pub fn as_slices(&self) -> (r: (&[T], &[T]))
        requires
            self.wf(),
        ensures
            0 <= self.spec_front_len() <= self@.len(),
            r.0@ == self@.take(self.spec_front_len()),
            r.1@ == self@.skip(self.spec_front_len()),
            r.0@ + r.1@ == self@,
    {
        proof {
            self.meta.lemma_wf_bounds();
        }
        let (front_range, wrap_range) = self.meta.as_ranges();
        let s = self.items.as_slice();
        let front_piece = s.split_at(front_range.start).1.split_at(
            front_range.end - front_range.start,
        ).0;
        let wrap_piece = s.split_at(wrap_range.end).0;
        proof {
            let flen = self.spec_front_len();
            assert(self.meta.indices().len() == self.meta.spec_len());
            assert forall|i: int| 0 <= i < self@.len() implies #[trigger] self.meta.index_at(i)
                == self.meta.indices()[i] by {}
            assert(front_piece@ =~= self@.take(flen));
            assert(wrap_piece@ =~= self@.skip(flen));
            assert(front_piece@ + wrap_piece@ =~= self@);
        }
        (front_piece, wrap_piece)
    }
}

impl<T> BaseDeque<T> where T: Default {
    /// Returns a mutable reference to the first element, or `None` if the
    /// deque is empty.
    pub fn front_mut(&mut self) -> (r: Option<&mut T>)
        requires
            old(self).wf(),
        ensures
            old(self)@.len() == 0 ==> (r is None && *final(self) == *old(self)),
            old(self)@.len() > 0 ==> r.is_some() && *r.unwrap() == old(self)@[0] && final(self)@
                =~= old(self)@.update(0, *final(r.unwrap())) && final(self).wf()
                && final(self).spec_capacity() == old(self).spec_capacity(),
    {
        proof {
            self.meta.lemma_wf_bounds();
        }
        match self.meta.front() {
            Some(idx) => {
                let ghost om = self.meta;
                proof {
                    assert forall|i: int| 1 <= i < om.spec_len() implies #[trigger] om.index_at(i)
                        != idx as int by {}
                }
                let e = &mut self.items[idx];
                Some(e)
            },
            None => None,
        }
    }

    /// Returns a mutable reference to the last element, or `None` if the
    /// deque is empty.
    pub fn back_mut(&mut self) -> (r: Option<&mut T>)
        requires
            old(self).wf(),
        ensures
            old(self)@.len() == 0 ==> (r is None && *final(self) == *old(self)),
            old(self)@.len() > 0 ==> r.is_some() && *r.unwrap() == old(self)@[old(self)@.len() - 1]
                && final(self)@ =~= old(self)@.update(old(self)@.len() - 1, *final(r.unwrap()))
                && final(self).wf() && final(self).spec_capacity() == old(self).spec_capacity(),
    {
        proof {
            self.meta.lemma_wf_bounds();
        }
        match self.meta.back() {
            Some(idx) => {
                let ghost om = self.meta;
                proof {
                    assert forall|i: int|
                        0 <= i < om.spec_len() - 1 implies #[trigger] om.index_at(i)
                        != idx as int by {}
                }
                let e = &mut self.items[idx];
                Some(e)
            },
            None => None,
        }
    }

    /// Returns a pair of mutable slices which contain, in order, the elements
    /// of the deque. The two slices cover disjoint storage, so both may be
    /// written through; the deque then reads back their contents in order.
    pub fn as_mut_slices(&mut self) -> (r: (&mut [T], &mut [T]))
        requires
            old(self).wf(),
        ensures
            0 <= old(self).spec_front_len() <= old(self)@.len(),
            r.0@ == old(self)@.take(old(self).spec_front_len()),
            r.1@ == old(self)@.skip(old(self).spec_front_len()),
            (final(r.0)@.len() == r.0@.len() && final(r.1)@.len() == r.1@.len()) ==> (
            final(self).wf() && final(self).spec_capacity() == old(self).spec_capacity()
                && final(self)@ =~= final(r.0)@ + final(r.1)@),
    {
        proof {
            self.meta.lemma_wf_bounds();
        }
        let ghost om = self.meta;
        let ghost oitems = self.items@;
        let (front_range, wrap_range) = self.meta.as_ranges();
        let ghost fstart = front_range.start as int;
        let ghost fend = front_range.end as int;
        let ghost wend = wrap_range.end as int;
        proof {
            assert(om.indices().len() == om.spec_len());
            assert forall|i: int|
                0 <= i < om.spec_len() implies #[trigger] om.index_at(i) == (if i < fend - fstart {
                fstart + i
            } else {
                i - (fend - fstart)
            }) by {
                assert(om.index_at(i) == om.indices()[i]);
            }
        }
        let s = self.items.as_mut_slice();
        let (low, tail) = s.split_at_mut(front_range.start);
        let (mid, _high) = tail.split_at_mut(front_range.end - front_range.start);
        let (wrap, _gap) = low.split_at_mut(wrap_range.end);
        proof {
            assert(mid@ =~= old(self)@.take(old(self).spec_front_len()));
            assert(wrap@ =~= old(self)@.skip(old(self).spec_front_len()));
        }
        (mid, wrap)
    }
}

impl<T> BaseDeque<T> where T: Default {
    /// Decides at run time whether the deque is well-formed.
    pub fn check_wf(&self) -> (b: bool)
        ensures
            b == self.wf(),
    {
        self.meta.check_wf() && self.meta.capacity() == self.items.len()
    }

    /// Compares two deques element by element, in logical order. Two deques
    /// are equal when both are well-formed, hold the same number of elements,
    /// and the elements at each position compare equal.
    pub fn elements_eq(&self, other: &BaseDeque<T>) -> (r: bool) where T: PartialEq
        ensures
            T::obeys_eq_spec() ==> r == (self.wf() && other.wf() && crate::seq_eq_by_elements(
                self@,
                other@,
            )),
    {
        if !self.check_wf() || !other.check_wf() {
            return false;
        }
        let mut it_self = DequeIter::new(self);
        let mut it_other = DequeIter::new(other);
        let ghost mut k: int = 0;
        loop
            invariant
                it_self.wf(),
                it_other.wf(),
                self.wf(),
                other.wf(),
                0 <= k <= self@.len(),
                0 <= k <= other@.len(),
                it_self.remaining() == self@.skip(k),
                it_other.remaining() == other@.skip(k),
                T::obeys_eq_spec() ==> (forall|j: int|
                    0 <= j < k ==> #[trigger] self@[j].eq_spec(&other@[j])),
            decreases self@.len() - k,
        {
            let x = it_self.next();
            let y = it_other.next();
            match (x, y) {
                (Some(a), Some(b)) => {
                    proof {
                        assert(*a == self@[k]);
                        assert(*b == other@[k]);
                    }
                    if !(*a == *b) {
                        return false;
                    }
                },
                (None, None) => {
                    proof {
                        assert(self@.len() == k);
                        assert(other@.len() == k);
                    }
                    return true;
                },
                _ => {
                    proof {
                        assert(self@.len() != other@.len());
                    }
                    return false;
                },
            }
            proof {
                assert(it_self.remaining() =~= self@.skip(k + 1));
                assert(it_other.remaining() =~= other@.skip(k + 1));
                k = k + 1;
            }
        }
    }
}

/// An immutable iterator over a deque. It walks a private copy of the
/// occupancy state down to empty, reading each slot it releases, and never
/// changes the deque itself.
pub(crate) struct DequeIter<'a, T> where T: Default {
    meta: Meta,
    deque: &'a BaseDeque<T>,
}

impl<'a, T> DequeIter<'a, T> where T: Default {
    /// Well-formedness of the iterator.
    pub closed spec fn wf(self) -> bool {
        self.meta.wf() && self.meta.spec_capacity() == self.deque.items@.len()
    }

    /// The elements not yet yielded, in front-to-back order.
    pub closed spec fn remaining(self) -> Seq<T> {
        Seq::new(self.meta.spec_len() as nat, |i: int| self.deque.items@[self.meta.index_at(i)])
    }

    /// Creates an iterator over all elements of `deque`.
    pub fn new(deque: &'a BaseDeque<T>) -> (r: DequeIter<'a, T>)
        requires
            deque.wf(),
        ensures
            r.wf(),
            r.remaining() == deque@,
    {
        let r = DequeIter { meta: deque.meta, deque };
        proof {
            assert(r.remaining() =~= deque@);
        }
        r
    }

    /// Yields a reference to the next element from the front, or `None` when
    /// the iterator is exhausted.
    pub fn next(&mut self) -> (r: Option<&'a T>)
        requires
            old(self).wf(),
        ensures
            final(self).wf(),
            old(self).remaining().len() == 0 ==> (r is None && *final(self) == *old(self)),
            old(self).remaining().len() > 0 ==> (r matches Some(e) && *e == old(
                self,
            ).remaining()[0] && final(self).remaining() == old(self).remaining().skip(1)),
    {
        proof {
            self.meta.lemma_wf_bounds();
        }
        match self.meta.free_front() {
            Some(idx) => {
                proof {
                    let om = old(self).meta;
                    let nm = self.meta;
                    assert(nm.indices().len() == nm.spec_len());
                    assert(om.indices().len() == om.spec_len());
                    assert forall|j: int| 0 <= j < nm.spec_len() implies #[trigger] nm.index_at(j)
                        == om.index_at(j + 1) by {
                        assert(nm.index_at(j) == nm.indices()[j]);
                        assert(nm.indices()[j] == om.indices().skip(1)[j]);
                        assert(om.indices()[j + 1] == om.index_at(j + 1));
                    }
                    assert(self.remaining() =~= old(self).remaining().skip(1));
                }
                Some(&self.deque.items[idx])
            },
            None => None,
        }
    }

    /// Yields a reference to the next element from the back, or `None` when
    /// the iterator is exhausted.
    pub fn next_back(&mut self) -> (r: Option<&'a T>)
        requires
            old(self).wf(),
        ensures
            final(self).wf(),
            old(self).remaining().len() == 0 ==> (r is None && *final(self) == *old(self)),
            old(self).remaining().len() > 0 ==> (r matches Some(e) && *e == old(self).remaining()[
                old(self).remaining().len() - 1] && final(self).remaining() == old(
                self,
            ).remaining().drop_last()),
    {
        proof {
            self.meta.lemma_wf_bounds();
        }
        match self.meta.free_back() {
            Some(idx) => {
                proof {
                    let om = old(self).meta;
                    let nm = self.meta;
                    assert(nm.indices().len() == nm.spec_len());
                    assert(om.indices().len() == om.spec_len());
                    assert forall|j: int| 0 <= j < nm.spec_len() implies #[trigger] nm.index_at(j)
                        == om.index_at(j) by {
                        assert(nm.index_at(j) == nm.indices()[j]);
                        assert(nm.indices()[j] == om.indices().drop_last()[j]);
                        assert(om.indices()[j] == om.index_at(j));
                    }
                    assert(self.remaining() =~= old(self).remaining().drop_last());
                }
                Some(&self.deque.items[idx])
            },
            None => None,
        }
    }
}

/// A draining cursor: it owns elements that have already been removed from a
/// deque and yields them on demand. Elements it never yields are dropped
/// with it.
pub struct DequeDrain<T> {
    items: Vec<T>,
}

impl<T> View for DequeDrain<T> {
    type V = Seq<T>;

    /// The elements still to be yielded, in yield order.
    closed spec fn view(&self) -> Seq<T> {
        self.items@
    }
}

impl<T> DequeDrain<T> {
    /// Yields the next drained element, or `None` when the cursor is
    /// exhausted.
    pub fn next(&mut self) -> (r: Option<T>)
        ensures
            old(self)@.len() == 0 ==> (r is None && *final(self) == *old(self)),
            old(self)@.len() > 0 ==> (r matches Some(v) && v == old(self)@[0] && final(self)@
                == old(self)@.skip(1)),
    {
        if self.items.len() > 0 {
            let v = self.items.remove(0);
            proof {
                assert(self@ =~= old(self)@.skip(1));
            }
            Some(v)
        } else {
            None
        }
    }
}

/// After reserving a fresh slot `idx` and writing a value into it, the deque
/// reads the same element as before at every logical position other than the
/// inserted one, and the new value at the inserted position `pos`.
proof fn lemma_view_after_insert<T>(
    om: Meta,
    nm: Meta,
    oitems: Seq<T>,
    nitems: Seq<T>,
    idx: int,
    pos: int,
)
    requires
        om.wf(),
        nm.wf(),
        om.spec_capacity() == oitems.len(),
        nm.spec_capacity() == oitems.len(),
        0 <= idx < oitems.len(),
        forall|i: int| 0 <= i < om.spec_len() ==> #[trigger] om.index_at(i) != idx,
        nm.indices() == om.indices().insert(pos, idx),
        nitems == oitems.update(idx, nitems[idx]),
        0 <= pos <= om.spec_len(),
    ensures
        nm.spec_len() == om.spec_len() + 1,
        nm.index_at(pos) == idx,
        forall|i: int|
            0 <= i < om.spec_len() + 1 && i != pos ==> #[trigger] nitems[nm.index_at(i)]
                == oitems[om.index_at(if i < pos { i } else { i - 1 })],
{
    assert(nm.indices().len() == nm.spec_len());
    assert(om.indices().len() == om.spec_len());
    assert(nm.index_at(pos) == nm.indices()[pos]);
    assert forall|i: int|
        0 <= i < om.spec_len() + 1 && i != pos implies #[trigger] nitems[nm.index_at(i)]
        == oitems[om.index_at(if i < pos { i } else { i - 1 })] by {
        let j: int = if i < pos { i } else { i - 1 };
        assert(nm.index_at(i) == nm.indices()[i]);
        assert(nm.indices()[i] == om.indices().insert(pos, idx)[i]);
        assert(om.indices().insert(pos, idx)[i] == om.indices()[j]);
        assert(om.indices()[j] == om.index_at(j));
        om.lemma_wf_bounds();
        assert(om.index_at(j) != idx);
        assert(nitems[om.index_at(j)] == oitems[om.index_at(j)]);
    }
}

} // verus!
