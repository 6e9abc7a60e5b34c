//! The rib heap: an indexed, growable store of ribs.

use crate::field::{Rib, RibField};
use vstd::prelude::*;

verus! {

/// Calls `Vec::capacity`, the number of elements the vector can hold
/// without reallocating. The number is what an allocator gave; all that is
/// claimed of it is that the vector's elements have room in it: a vector
/// holds its elements in the first places of its allocation, so its length
/// is never more than its capacity.
#[verifier::external_body]
pub(crate) fn vec_capacity(v: &Vec<Rib>) -> (c: usize)
    ensures
        c >= v@.len(),
{
    v.capacity()
}

/// Whether a field is an integer or refers to one of the first `n` ribs.
pub open spec fn field_closed(f: RibField, n: nat) -> bool {
    f matches RibField::Rib(i) ==> i < n
}

/// Whether each field of a rib is an integer or refers to one of the first
/// `n` ribs.
pub open spec fn rib_closed(r: Rib, n: nat) -> bool {
    field_closed(r.first, n) && field_closed(r.middle, n) && field_closed(r.last, n)
}

/// Whether no reference in a heap points past its end.
pub open spec fn heap_closed(h: Seq<Rib>) -> bool {
    forall|i: int| 0 <= i < h.len() ==> rib_closed(#[trigger] h[i], h.len())
}

/// Whether a heap holds the three singletons' places, no reference in it
/// points past its end, and its length is one that an index can have.
pub open spec fn heap_wf(h: Seq<Rib>) -> bool {
    3 <= h.len() <= usize::MAX && heap_closed(h)
}

/// Whether a heap is well formed and the stack lies in it.
pub open spec fn sound(h: Seq<Rib>, stack: usize) -> bool {
    heap_wf(h) && stack < h.len()
}

/// An ordered sequence of ribs, addressed by index from zero.
pub struct RibHeap {
    pub heap: Vec<Rib>,
}

impl View for RibHeap {
    type V = Seq<Rib>;

    open spec fn view(&self) -> Seq<Rib> {
        self.heap@
    }
}

impl RibHeap {
    /// A heap is well formed when it holds the three singletons' places,
    /// every reference in it points at one of its ribs, and its length is
    /// one that an index can have.
    pub open spec fn wf(&self) -> bool {
        heap_wf(self@)
    }

    /// Appends a rib and returns its index.
    pub fn push_rib(&mut self, data: Rib) -> (index: usize)
        ensures
            index == old(self)@.len(),
            final(self)@ == old(self)@.push(data),
            final(self)@.len() <= usize::MAX,
    {
        let index = self.heap.len();
        self.heap.push(data);
        let grown = self.heap.len();
        index
    }

    /// An empty heap with room for `capacity` ribs.
    pub fn with_capacity(capacity: usize) -> (h: Self)
        ensures
            h@ == Seq::<Rib>::empty(),
    {
        RibHeap { heap: Vec::with_capacity(capacity) }
    }

    /// Replaces the rib at an index.
    pub fn set(&mut self, i: &usize, r: Rib)
        requires
            *i < old(self)@.len(),
        ensures
            final(self)@ == old(self)@.update(*i as int, r),
    {
        self.heap[*i] = r;
    }

    /// The rib at an index.
    pub fn get(&self, i: &usize) -> (r: Rib)
        requires
            *i < self@.len(),
        ensures
            r == self@[*i as int],
    {
        self.heap[*i]
    }

    /// The number of ribs in the heap.
    pub fn len(&self) -> (n: usize)
        ensures
            n == self@.len(),
    {
        self.heap.len()
    }

    /// The number of ribs the heap has room for before it must grow: at
    /// least the number of ribs it holds.
    pub fn capacity(&self) -> (n: usize)
        ensures
            n >= self@.len(),
    {
        vec_capacity(&self.heap)
    }

    /// Whether every reference in the heap points at one of its ribs and
    /// the singletons' places exist.
    pub fn is_wf(&self) -> (b: bool)
        ensures
            b == self.wf(),
    {
        let n = self.heap.len();
        if n < 3 {
            return false;
        }
        let mut i: usize = 0;
        while i < n
            invariant
                i <= n,
                n == self@.len(),
                forall|k: int| 0 <= k < i ==> rib_closed(#[trigger] self@[k], n as nat),
            decreases n - i,
        {
            let r = self.heap[i];
            if !(field_in(&r.first, n) && field_in(&r.middle, n) && field_in(&r.last, n)) {
                return false;
            }
            i += 1;
        }
        true
    }
}

/// Whether a field is an integer or refers to one of the first `n` ribs.
pub fn field_in(f: &RibField, n: usize) -> (b: bool)
    ensures
        b == field_closed(*f, n as nat),
{
    match f {
        RibField::Rib(i) => *i < n,
        RibField::Number(_) => true,
    }
}

impl RibField {
    /// The rib that a reference points at.
    pub fn get_rib(&self, holder: &RibHeap) -> (r: Rib)
        requires
            *self matches RibField::Rib(i) && i < holder@.len(),
        ensures
            *self matches RibField::Rib(i) && r == holder@[i as int],
    {
        match self {
            RibField::Rib(inner) => holder.get(inner),
            RibField::Number(_) => Rib {
                first: RibField::Number(0),
                middle: RibField::Number(0),
                last: RibField::Number(0),
            },
        }
    }
}

/// In a heap without dangling references no rib holds one.
pub proof fn lemma_closed_at(h: Seq<Rib>, i: int)
    ensures
        heap_closed(h) && 0 <= i < h.len() ==> rib_closed(h[i], h.len()),
{
}

/// Appending a rib without dangling references keeps a heap without them.
pub proof fn lemma_push_closed(h: Seq<Rib>, r: Rib)
    ensures
        heap_closed(h) && rib_closed(r, h.len() + 1) ==> heap_closed(h.push(r)),
{
    if heap_closed(h) && rib_closed(r, h.len() + 1) {
        assert forall|i: int| 0 <= i < h.push(r).len() implies rib_closed(
            #[trigger] h.push(r)[i],
            h.push(r).len(),
        ) by {
            if i < h.len() {
                assert(rib_closed(h[i], h.len()));
            }
        }
    }
}

/// Replacing a rib by a rib without dangling references keeps a heap
/// without them.
pub proof fn lemma_update_closed(h: Seq<Rib>, i: int, r: Rib)
    ensures
        heap_closed(h) && 0 <= i < h.len() && rib_closed(r, h.len()) ==> heap_closed(
            h.update(i, r),
        ),
{
    if heap_closed(h) && 0 <= i < h.len() && rib_closed(r, h.len()) {
        assert forall|k: int| 0 <= k < h.update(i, r).len() implies rib_closed(
            #[trigger] h.update(i, r)[k],
            h.update(i, r).len(),
        ) by {
            if k != i {
                assert(rib_closed(h[k], h.len()));
            }
        }
    }
}

} // verus!
