//! Metadata tracking the layout of a deque's backing storage.
//!
//! A [`Meta`] value records, for storage of a fixed capacity, which slots are
//! occupied and in what shape. Every deque operation is a transition on this
//! state machine; the transition also yields the physical slot index to read
//! or write. The occupied region is always either one contiguous run or two
//! runs separated by a single gap, so every index is derived by explicit case
//! analysis rather than modulo arithmetic.

use vstd::prelude::*;

use crate::DequeEnd;

verus! {

/// The shape of the occupied region of the backing storage.
#[derive(Clone, Copy, Debug)]
pub enum MetaLayout {
    /// No slot is occupied.
    Empty,
    /// The occupied slots form one contiguous run `[first, first + len)`.
    Linear {
        /// The index of the slot holding the first (front) element.
        first: usize,
        /// The number of occupied slots; always at least 1.
        len: usize,
    },
    /// The occupied slots form two runs: the wrap piece `[0, wrap_len)`,
    /// which is logically the back portion of the deque, and the front piece
    /// `[wrap_len + gap_len, capacity)`. The single unused run between them,
    /// `[wrap_len, wrap_len + gap_len)`, is the gap.
    Wrapped {
        /// The length of the wrap piece at the low end of storage; at least 1.
        wrap_len: usize,
        /// The length of the unused gap between the two pieces.
        gap_len: usize,
    },
}

impl MetaLayout {
    /// Structural invariant of a layout with respect to a storage capacity.
    pub open spec fn wf(self, capacity: int) -> bool {
        match self {
            MetaLayout::Empty => true,
            MetaLayout::Linear { first, len } => 1 <= len && first + len <= capacity,
            MetaLayout::Wrapped { wrap_len, gap_len } => 1 <= wrap_len && wrap_len + gap_len
                < capacity,
        }
    }
}

/// Layout metadata for a deque: a fixed capacity plus the occupancy shape.
#[derive(Clone, Copy, Debug)]
pub struct Meta {
    /// The number of slots in the backing storage; never changes.
    pub capacity: usize,
    /// The current occupancy shape.
    pub layout: MetaLayout,
}

impl Meta {
    /// Well-formedness: the layout fits the capacity.
    pub open spec fn wf(self) -> bool {
        self.layout.wf(self.capacity as int)
    }

    /// The capacity, as a mathematical integer.
    pub open spec fn spec_capacity(self) -> int {
        self.capacity as int
    }

    /// The number of occupied slots.
    pub open spec fn spec_len(self) -> int {
        match self.layout {
            MetaLayout::Empty => 0,
            MetaLayout::Linear { len, .. } => len as int,
            MetaLayout::Wrapped { gap_len, .. } => self.capacity - gap_len,
        }
    }

    /// The physical slot index holding the element at logical position `i`
    /// (position 0 is the front). Meaningful for `0 <= i < self.spec_len()`.
    pub open spec fn index_at(self, i: int) -> int {
        match self.layout {
            MetaLayout::Empty => 0,
            MetaLayout::Linear { first, .. } => first + i,
            MetaLayout::Wrapped { wrap_len, gap_len } => {
                let front_len = self.capacity - wrap_len - gap_len;
                if i < front_len {
                    wrap_len + gap_len + i
                } else {
                    i - front_len
                }
            },
        }
    }

    /// The occupied slot indices in logical front-to-back order.
    pub open spec fn indices(self) -> Seq<int> {
        Seq::new(self.spec_len() as nat, |i: int| self.index_at(i))
    }

    /// A well-formed layout occupies at most `capacity` slots, every occupied
    /// slot index is in bounds, and distinct logical positions occupy
    /// distinct slots.
    pub proof fn lemma_wf_bounds(self)
        requires
            self.wf(),
        ensures
            0 <= self.spec_len() <= self.spec_capacity(),
            forall|i: int|
                0 <= i < self.spec_len() ==> 0 <= #[trigger] self.index_at(i)
                    < self.spec_capacity(),
            forall|i: int, j: int|
                0 <= i < self.spec_len() && 0 <= j < self.spec_len() && i != j
                    ==> #[trigger] self.index_at(i) != #[trigger] self.index_at(j),
    {
    }

    /// Constructs metadata for empty storage of the given capacity.
    pub fn empty(capacity: usize) -> (r: Meta)
        ensures
            r.wf(),
            r.spec_capacity() == capacity,
            r.spec_len() == 0,
    {
        Meta { capacity, layout: MetaLayout::Empty }
    }

    /// Returns the capacity of the deque.
    pub fn capacity(&self) -> (r: usize)
        ensures
            r == self.spec_capacity(),
    {
        self.capacity
    }

    /// Returns the current occupancy shape.
    pub fn layout(&self) -> (r: MetaLayout)
        ensures
            r == self.layout,
    {
        self.layout
    }

    /// Replaces the occupancy shape. The new shape must fit the capacity.
    pub fn set_layout(&mut self, layout: MetaLayout)
        requires
            layout.wf(old(self).spec_capacity()),
        ensures
            *final(self) == (Meta { capacity: old(self).capacity, layout }),
    {
        self.layout = layout;
    }

    /// Decides at run time whether the layout fits the capacity.
    pub fn check_wf(&self) -> (b: bool)
        ensures
            b == self.wf(),
    {
        match self.layout {
            MetaLayout::Empty => true,
            MetaLayout::Linear { first, len } => 1 <= len && len <= self.capacity && first
                <= self.capacity - len,
            MetaLayout::Wrapped { wrap_len, gap_len } => 1 <= wrap_len && gap_len < self.capacity
                && wrap_len < self.capacity - gap_len,
        }
    }

    /// Returns the number of elements in the deque.
    pub fn len(&self) -> (r: usize)
        requires
            self.wf(),
        ensures
            r == self.spec_len(),
    {
        match self.layout {
            MetaLayout::Empty => 0,
            MetaLayout::Linear { len, .. } => len,
            MetaLayout::Wrapped { gap_len, .. } => self.capacity - gap_len,
        }
    }

    /// Returns the index of the slot holding the first element, or `None` if
    /// the deque is empty.
    pub fn front(&self) -> (r: Option<usize>)
        requires
            self.wf(),
        ensures
            self.spec_len() == 0 ==> r is None,
            self.spec_len() > 0 ==> (r matches Some(idx) && idx == self.index_at(0)),
    {
        match self.layout {
            MetaLayout::Empty => None,
            MetaLayout::Linear { first, .. } => Some(first),
            MetaLayout::Wrapped { wrap_len, gap_len } => Some(wrap_len + gap_len),
        }
    }

    /// Returns the index of the slot holding the last element, or `None` if
    /// the deque is empty.
    pub fn back(&self) -> (r: Option<usize>)
        requires
            self.wf(),
        ensures
            self.spec_len() == 0 ==> r is None,
            self.spec_len() > 0 ==> (r matches Some(idx) && idx == self.index_at(
                self.spec_len() - 1,
            )),
    {
        match self.layout {
            MetaLayout::Empty => None,
            MetaLayout::Linear { first, len } => Some(first + len - 1),
            MetaLayout::Wrapped { wrap_len, .. } => Some(wrap_len - 1),
        }
    }
    /// Reserves a slot at the front of the deque, returning its index, or
    /// `None` if the deque is already at capacity.
    pub fn reserve_front(&mut self) -> (r: Option<usize>)
        requires
            old(self).wf(),
        ensures
            final(self).wf(),
            final(self).spec_capacity() == old(self).spec_capacity(),
            old(self).spec_len() == old(self).spec_capacity() ==> (r is None && *final(self)
                == *old(self)),
            old(self).spec_len() < old(self).spec_capacity() ==> (r matches Some(idx) && {
                &&& 0 <= idx < old(self).spec_capacity()
                &&& forall|i: int|
                    0 <= i < old(self).spec_len() ==> #[trigger] old(self).index_at(i) != idx
                &&& final(self).indices() == seq![idx as int] + old(self).indices()
            }),
    {
        if self.capacity == 0 {
            return None;
        }
        match self.layout {
            MetaLayout::Empty => {
                let claimed = self.capacity - 1;
                self.layout = MetaLayout::Linear { first: claimed, len: 1 };
                proof {
                    assert(self.indices() =~= seq![claimed as int] + old(self).indices());
                }
                Some(claimed)
            },
            MetaLayout::Linear { first, len } => {
                if len == self.capacity {
                    None
                } else if first == 0 {
                    // The run would underflow index 0: wrap around, claiming
                    // the slot at the top of storage.
                    let claimed = self.capacity - 1;
                    self.layout = MetaLayout::Wrapped {
                        wrap_len: len,
                        gap_len: self.capacity - (len + 1),
                    };
                    proof {
                        assert(self.indices() =~= seq![claimed as int] + old(self).indices());
                    }
                    Some(claimed)
                } else {
                    let claimed = first - 1;
                    self.layout = MetaLayout::Linear { first: claimed, len: len + 1 };
                    proof {
                        assert(self.indices() =~= seq![claimed as int] + old(self).indices());
                    }
                    Some(claimed)
                }
            },
            MetaLayout::Wrapped { wrap_len, gap_len } => {
                if gap_len == 0 {
                    // A zero-length gap means every slot is occupied.
                    None
                } else {
                    let new_gap_len = gap_len - 1;
                    let claimed = wrap_len + new_gap_len;
                    self.layout = MetaLayout::Wrapped { wrap_len, gap_len: new_gap_len };
                    proof {
                        assert(self.indices() =~= seq![claimed as int] + old(self).indices());
                    }
                    Some(claimed)
                }
            },
        }
    }

    /// Reserves a slot at the back of the deque, returning its index, or
    /// `None` if the deque is already at capacity.
    pub fn reserve_back(&mut self) -> (r: Option<usize>)
        requires
            old(self).wf(),
        ensures
            final(self).wf(),
            final(self).spec_capacity() == old(self).spec_capacity(),
            old(self).spec_len() == old(self).spec_capacity() ==> (r is None && *final(self)
                == *old(self)),
            old(self).spec_len() < old(self).spec_capacity() ==> (r matches Some(idx) && {
                &&& 0 <= idx < old(self).spec_capacity()
                &&& forall|i: int|
                    0 <= i < old(self).spec_len() ==> #[trigger] old(self).index_at(i) != idx
                &&& final(self).indices() == old(self).indices().push(idx as int)
            }),
    {
        if self.capacity == 0 {
            return None;
        }
        match self.layout {
            MetaLayout::Empty => {
                self.layout = MetaLayout::Linear { first: 0, len: 1 };
                proof {
                    assert(self.indices() =~= old(self).indices().push(0));
                }
                Some(0)
            },
            MetaLayout::Linear { first, len } => {
                if len == self.capacity {
                    None
                } else if first + len == self.capacity {
                    // The run would overflow past the last slot: wrap around,
                    // claiming the slot at the bottom of storage.
                    self.layout = MetaLayout::Wrapped {
                        wrap_len: 1,
                        gap_len: self.capacity - (len + 1),
                    };
                    proof {
                        assert(self.indices() =~= old(self).indices().push(0));
                    }
                    Some(0)
                } else {
                    let claimed = first + len;
                    self.layout = MetaLayout::Linear { first, len: len + 1 };
                    proof {
                        assert(self.indices() =~= old(self).indices().push(claimed as int));
                    }
                    Some(claimed)
                }
            },
            MetaLayout::Wrapped { wrap_len, gap_len } => {
                if gap_len == 0 {
                    None
                } else {
                    let claimed = wrap_len;
                    self.layout = MetaLayout::Wrapped {
                        wrap_len: wrap_len + 1,
                        gap_len: gap_len - 1,
                    };
                    proof {
                        assert(self.indices() =~= old(self).indices().push(claimed as int));
                    }
                    Some(claimed)
                }
            },
        }
    }

    /// Releases the slot holding the first element, returning its index, or
    /// `None` if the deque is empty.
    pub fn free_front(&mut self) -> (r: Option<usize>)
        requires
            old(self).wf(),
        ensures
            final(self).wf(),
            final(self).spec_capacity() == old(self).spec_capacity(),
            old(self).spec_len() == 0 ==> (r is None && *final(self) == *old(self)),
            old(self).spec_len() > 0 ==> (r matches Some(idx) && {
                &&& idx == old(self).index_at(0)
                &&& 0 <= idx < old(self).spec_capacity()
                &&& final(self).indices() == old(self).indices().skip(1)
                &&& forall|i: int|
                    0 <= i < final(self).spec_len() ==> #[trigger] final(self).index_at(i) != idx
            }),
    {
        match self.layout {
            MetaLayout::Empty => None,
            MetaLayout::Linear { first, len } => {
                let freed = first;
                if len == 1 {
                    self.layout = MetaLayout::Empty;
                } else {
                    self.layout = MetaLayout::Linear { first: first + 1, len: len - 1 };
                }
                proof {
                    assert(self.indices() =~= old(self).indices().skip(1));
                }
                Some(freed)
            },
            MetaLayout::Wrapped { wrap_len, gap_len } => {
                let freed = wrap_len + gap_len;
                if freed == self.capacity - 1 {
                    // The freed slot abuts the top of storage, so the wrap
                    // piece is all that remains: collapse back to one run.
                    self.layout = MetaLayout::Linear { first: 0, len: wrap_len };
                } else {
                    self.layout = MetaLayout::Wrapped { wrap_len, gap_len: gap_len + 1 };
                }
                proof {
                    assert(self.indices() =~= old(self).indices().skip(1));
                }
                Some(freed)
            },
        }
    }

    /// Releases the slot holding the last element, returning its index, or
    /// `None` if the deque is empty.
    pub fn free_back(&mut self) -> (r: Option<usize>)
        requires
            old(self).wf(),
        ensures
            final(self).wf(),
            final(self).spec_capacity() == old(self).spec_capacity(),
            old(self).spec_len() == 0 ==> (r is None && *final(self) == *old(self)),
            old(self).spec_len() > 0 ==> (r matches Some(idx) && {
                &&& idx == old(self).index_at(old(self).spec_len() - 1)
                &&& 0 <= idx < old(self).spec_capacity()
                &&& final(self).indices() == old(self).indices().drop_last()
                &&& forall|i: int|
                    0 <= i < final(self).spec_len() ==> #[trigger] final(self).index_at(i) != idx
            }),
    {
        match self.layout {
            MetaLayout::Empty => None,
            MetaLayout::Linear { first, len } => {
                let freed = first + len - 1;
                if len == 1 {
                    self.layout = MetaLayout::Empty;
                } else {
                    self.layout = MetaLayout::Linear { first, len: len - 1 };
                }
                proof {
                    assert(self.indices() =~= old(self).indices().drop_last());
                }
                Some(freed)
            },
            MetaLayout::Wrapped { wrap_len, gap_len } => {
                let freed = wrap_len - 1;
                if wrap_len == 1 {
                    // The whole wrap piece is gone: the front piece is all
                    // that remains, so collapse back to one run.
                    self.layout = MetaLayout::Linear {
                        first: gap_len + 1,
                        len: self.capacity - (gap_len + 1),
                    };
                } else {
                    self.layout = MetaLayout::Wrapped {
                        wrap_len: wrap_len - 1,
                        gap_len: gap_len + 1,
                    };
                }
                proof {
                    assert(self.indices() =~= old(self).indices().drop_last());
                }
                Some(freed)
            },
        }
    }

    /// Returns the pair of index ranges covering the occupied slots, in
    /// logical front-to-back order: first the front piece, then the wrap
    /// piece. For `Empty` and `Linear` layouts the second range is empty.
    pub fn as_ranges(&self) -> (r: (core::ops::Range<usize>, core::ops::Range<usize>))
        requires
            self.wf(),
        ensures
            r.0.start <= r.0.end <= self.spec_capacity(),
            r.1.start == 0 && r.1.end <= r.0.start,
            self.indices() == range_seq(r.0.start as int, r.0.end as int) + range_seq(
                0,
                r.1.end as int,
            ),
            r.1.end == (match self.layout {
                MetaLayout::Wrapped { wrap_len, .. } => wrap_len as int,
                _ => 0,
            }),
            r.0.end - r.0.start == self.spec_len() - r.1.end,
    {
        match self.layout {
            MetaLayout::Empty => {
                let r = (0usize..0usize, 0usize..0usize);
                proof {
                    assert(self.indices() =~= range_seq(0, 0) + range_seq(0, 0));
                }
                r
            },
            MetaLayout::Linear { first, len } => {
                let r = (first..first + len, 0usize..0usize);
                proof {
                    assert(self.indices() =~= range_seq(first as int, first + len) + range_seq(
                        0,
                        0,
                    ));
                }
                r
            },
            MetaLayout::Wrapped { wrap_len, gap_len } => {
                let start = wrap_len + gap_len;
                let r = (start..self.capacity, 0usize..wrap_len);
                proof {
                    assert(self.indices() =~= range_seq(start as int, self.capacity as int)
                        + range_seq(0, wrap_len as int));
                }
                r
            },
        }
    }

    /// Removes all occupied slots at once, resetting the layout to empty and
    /// returning a cursor that yields the removed indices in front-to-back
    /// order.
    pub fn clear(&mut self) -> (r: MetaDrain)
        requires
            old(self).wf(),
        ensures
            final(self).wf(),
            final(self).spec_capacity() == old(self).spec_capacity(),
            final(self).spec_len() == 0,
            r.wf(),
            r.spec_capacity() == old(self).spec_capacity(),
            r.pending() == old(self).indices(),
    {
        let remaining = self.len();
        let drain = MetaDrain { meta: *self, remaining, end: DequeEnd::Front };
        self.layout = MetaLayout::Empty;
        proof {
            assert(drain.pending() =~= old(self).indices());
        }
        drain
    }

    /// Removes `n` slots from the front of the deque, returning a cursor that
    /// yields the removed indices in removal (front-to-back) order, or `None`
    /// if `n` exceeds the current length (the layout is then unchanged).
    pub fn drain_front(&mut self, n: usize) -> (r: Option<MetaDrain>)
        requires
            old(self).wf(),
        ensures
            final(self).wf(),
            final(self).spec_capacity() == old(self).spec_capacity(),
            n > old(self).spec_len() ==> (r is None && *final(self) == *old(self)),
            n <= old(self).spec_len() ==> (r matches Some(d) && {
                &&& d.wf()
                &&& d.spec_capacity() == old(self).spec_capacity()
                &&& d.pending() == old(self).indices().take(n as int)
                &&& final(self).indices() == old(self).indices().skip(n as int)
            }),
            n == 0 ==> *final(self) == *old(self),
    {
        let drain = match MetaDrain::front(*self, n) {
            Some(d) => d,
            None => {
                return None;
            },
        };
        match self.layout {
            MetaLayout::Empty => {
                // n must be zero, so this is a no-op.
            },
            MetaLayout::Linear { first, len } => {
                if n == len {
                    self.layout = MetaLayout::Empty;
                } else {
                    self.layout = MetaLayout::Linear { first: first + n, len: len - n };
                }
            },
            MetaLayout::Wrapped { wrap_len, gap_len } => {
                let front_len = self.capacity - (wrap_len + gap_len);
                if n >= front_len {
                    // The whole front piece is removed, along with the first
                    // slots of the wrap piece: one run remains.
                    let first = n - front_len;
                    if first == wrap_len {
                        self.layout = MetaLayout::Empty;
                    } else {
                        self.layout = MetaLayout::Linear { first, len: wrap_len - first };
                    }
                } else {
                    self.layout = MetaLayout::Wrapped { wrap_len, gap_len: gap_len + n };
                }
            },
        }
        proof {
            assert(self.indices() =~= old(self).indices().skip(n as int));
        }
        Some(drain)
    }

    /// Removes `n` slots from the back of the deque, returning a cursor that
    /// yields the removed indices in removal (back-to-front) order, or `None`
    /// if `n` exceeds the current length (the layout is then unchanged).
    pub fn drain_back(&mut self, n: usize) -> (r: Option<MetaDrain>)
        requires
            old(self).wf(),
        ensures
            final(self).wf(),
            final(self).spec_capacity() == old(self).spec_capacity(),
            n > old(self).spec_len() ==> (r is None && *final(self) == *old(self)),
            n <= old(self).spec_len() ==> (r matches Some(d) && {
                &&& d.wf()
                &&& d.spec_capacity() == old(self).spec_capacity()
                &&& d.pending() == Seq::new(
                    n as nat,
                    |i: int| old(self).index_at(old(self).spec_len() - 1 - i),
                )
                &&& final(self).indices() == old(self).indices().take(old(self).spec_len() - n)
            }),
            n == 0 ==> *final(self) == *old(self),
    {
        let drain = match MetaDrain::back(*self, n) {
            Some(d) => d,
            None => {
                return None;
            },
        };
        match self.layout {
            MetaLayout::Empty => {},
            MetaLayout::Linear { first, len } => {
                if n == len {
                    self.layout = MetaLayout::Empty;
                } else {
                    self.layout = MetaLayout::Linear { first, len: len - n };
                }
            },
            MetaLayout::Wrapped { wrap_len, gap_len } => {
                if n >= wrap_len {
                    // The whole wrap piece is removed, along with the last
                    // slots of the front piece: one run remains.
                    let total_len = self.capacity - gap_len;
                    if n == total_len {
                        self.layout = MetaLayout::Empty;
                    } else {
                        self.layout = MetaLayout::Linear {
                            first: wrap_len + gap_len,
                            len: total_len - n,
                        };
                    }
                } else {
                    self.layout = MetaLayout::Wrapped {
                        wrap_len: wrap_len - n,
                        gap_len: gap_len + n,
                    };
                }
            },
        }
        proof {
            assert(self.indices() =~= old(self).indices().take(old(self).spec_len() - n));
        }
        Some(drain)
    }
}

/// The sequence of integers `start, start + 1, ..., end - 1` (empty when
/// `end <= start`).
pub open spec fn range_seq(start: int, end: int) -> Seq<int> {
    Seq::new(if end >= start { (end - start) as nat } else { 0 }, |i: int| start + i)
}

/// A cursor over slot indices that have already been removed from a deque's
/// layout, yielding them on demand.
pub struct MetaDrain {
    meta: Meta,
    remaining: usize,
    end: DequeEnd,
}

impl MetaDrain {
    /// Well-formedness of the cursor.
    pub closed spec fn wf(self) -> bool {
        self.meta.wf() && self.remaining <= self.meta.spec_len()
    }

    /// The capacity of the storage the yielded indices point into.
    pub closed spec fn spec_capacity(self) -> int {
        self.meta.spec_capacity()
    }

    /// The slot indices still to be yielded, in yield order.
    pub closed spec fn pending(self) -> Seq<int> {
        match self.end {
            DequeEnd::Front => self.meta.indices().take(self.remaining as int),
            DequeEnd::Back => Seq::new(
                self.remaining as nat,
                |i: int| self.meta.index_at(self.meta.spec_len() - 1 - i),
            ),
        }
    }

    /// Creates a cursor that yields the first `n` occupied indices of `meta`
    /// in front-to-back order, or `None` if `n` exceeds the length.
    pub fn front(meta: Meta, n: usize) -> (r: Option<MetaDrain>)
        requires
            meta.wf(),
        ensures
            n > meta.spec_len() ==> r is None,
            n <= meta.spec_len() ==> (r matches Some(d) && {
                &&& d.wf()
                &&& d.spec_capacity() == meta.spec_capacity()
                &&& d.pending() == meta.indices().take(n as int)
            }),
    {
        if n > meta.len() {
            None
        } else {
            Some(MetaDrain { meta, remaining: n, end: DequeEnd::Front })
        }
    }

    /// Creates a cursor that yields the last `n` occupied indices of `meta`
    /// in back-to-front order, or `None` if `n` exceeds the length.
    pub fn back(meta: Meta, n: usize) -> (r: Option<MetaDrain>)
        requires
            meta.wf(),
        ensures
            n > meta.spec_len() ==> r is None,
            n <= meta.spec_len() ==> (r matches Some(d) && {
                &&& d.wf()
                &&& d.spec_capacity() == meta.spec_capacity()
                &&& d.pending() == Seq::new(
                    n as nat,
                    |i: int| meta.index_at(meta.spec_len() - 1 - i),
                )
            }),
    {
        if n > meta.len() {
            None
        } else {
            Some(MetaDrain { meta, remaining: n, end: DequeEnd::Back })
        }
    }

    /// Yields the next removed slot index, or `None` when the cursor is
    /// exhausted.
    pub fn next(&mut self) -> (r: Option<usize>)
        requires
            old(self).wf(),
        ensures
            final(self).wf(),
            final(self).spec_capacity() == old(self).spec_capacity(),
            old(self).pending().len() == 0 ==> (r is None && *final(self) == *old(self)),
            old(self).pending().len() > 0 ==> (r matches Some(idx) && {
                &&& idx == old(self).pending()[0]
                &&& 0 <= idx < old(self).spec_capacity()
                &&& final(self).pending() == old(self).pending().skip(1)
            }),
    {
        if self.remaining > 0 {
            self.remaining = self.remaining - 1;
            let idx = match self.end {
                DequeEnd::Front => {
                    let freed = self.meta.free_front();
                    proof {
                        assert(self.meta.indices().len() == self.meta.spec_len());
                        assert(old(self).meta.indices().len() == old(self).meta.spec_len());
                        assert(self.pending() =~= old(self).pending().skip(1));
                    }
                    freed
                },
                DequeEnd::Back => {
                    let freed = self.meta.free_back();
                    proof {
                        let om = old(self).meta;
                        let nm = self.meta;
                        assert(nm.indices() == om.indices().drop_last());
                        assert(nm.indices().len() == nm.spec_len());
                        assert(om.indices().len() == om.spec_len());
                        assert forall|j: int|
                            0 <= j < nm.spec_len() implies #[trigger] nm.index_at(j)
                            == om.index_at(j) by {
                            assert(nm.index_at(j) == nm.indices()[j]);
                            assert(om.indices().drop_last()[j] == om.indices()[j]);
                            assert(om.indices()[j] == om.index_at(j));
                        }
                        assert(self.pending() =~= old(self).pending().skip(1));
                    }
                    freed
                },
            };
            idx
        } else {
            None
        }
    }
}

} // verus!
