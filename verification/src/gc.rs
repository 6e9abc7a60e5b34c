//! The compacting collector: copies the ribs that the roots reach into a
//! fresh heap and rewrites every reference to the new indices.

use crate::error::VmError;
use crate::field::{Rib, RibField};
use crate::heap::{heap_closed, vec_capacity, RibHeap};
use crate::reach::{
    closed_under_edges, collection_by, edge, forward_root, has_source, injective, is_collection,
    lemma_closed_reaches, lemma_closed_tidy, lemma_reaches_edge, lemma_reaches_self, live,
    reaches, refers_to, relocate, tidy, tidy_from, Roots,
};
use std::collections::HashMap;
use vstd::prelude::*;

verus! {

/// The indices below `n`.
pub open spec fn below(n: nat) -> Set<usize> {
    Set::new(|i: usize| i < n)
}

/// There are `n` indices below `n`.
pub proof fn lemma_below_len(n: usize)
    ensures
        below(n as nat).finite(),
        below(n as nat).len() == n,
    decreases n,
{
    if n == 0 {
        assert(below(0) =~= Set::<usize>::empty());
    } else {
        lemma_below_len((n - 1) as usize);
        assert(below((n - 1) as nat).insert((n - 1) as usize) =~= below(n as nat));
    }
}

/// What a field adds to the work list: its reference, unless the field is
/// an integer or the reference is already forwarded.
pub open spec fn pending(f: RibField, m: Map<usize, usize>) -> Seq<usize> {
    match f {
        RibField::Rib(i) => if m.dom().contains(i) {
            Seq::empty()
        } else {
            seq![i]
        },
        RibField::Number(_) => Seq::empty(),
    }
}

/// What a rib adds to the work list: the pending references of its three
/// fields, in the order of the fields.
pub open spec fn pending_of(r: Rib, m: Map<usize, usize>) -> Seq<usize> {
    pending(r.first, m) + pending(r.middle, m) + pending(r.last, m)
}

/// The forwarding map and the new heap after the work list has been run:
/// the last index is taken off the list; if it is not yet forwarded, its
/// rib is appended to the new heap as it is, the index is forwarded to the
/// rib's new place, and the rib's pending references join the list. The
/// run ends when the list is empty. (It also ends after `fuel` steps, of
/// which `sweep_fuel` are more than it can take.)
pub open spec fn swept(
    h: Seq<Rib>,
    list: Seq<usize>,
    m: Map<usize, usize>,
    nh: Seq<Rib>,
    fuel: nat,
) -> (Map<usize, usize>, Seq<Rib>)
    decreases fuel,
{
    if fuel == 0 || list.len() == 0 {
        (m, nh)
    } else {
        let idx = list.last();
        let rest = list.drop_last();
        if m.dom().contains(idx) {
            swept(h, rest, m, nh, (fuel - 1) as nat)
        } else {
            swept(
                h,
                rest + pending_of(h[idx as int], m),
                m.insert(idx, nh.len() as usize),
                nh.push(h[idx as int]),
                (fuel - 1) as nat,
            )
        }
    }
}

/// More steps than a run of the work list can take, whatever the heap: a
/// rib is copied at most once, each copy puts at most three indices on the
/// list, and a heap holds at most `usize::MAX` ribs.
pub open spec fn sweep_fuel() -> nat {
    (4 * usize::MAX + 1) as nat
}

/// The forwarding map and the new heap after a root has been traced. A
/// root outside the heap and a root that is forwarded already add nothing.
pub open spec fn swept_from(h: Seq<Rib>, root: usize, m: Map<usize, usize>, nh: Seq<Rib>) -> (
    Map<usize, usize>,
    Seq<Rib>,
) {
    if root >= h.len() || m.dom().contains(root) {
        (m, nh)
    } else {
        swept(h, seq![root], m, nh, sweep_fuel())
    }
}

/// The new heap with its references rewritten: every rib above the
/// singletons has its references forwarded.
pub open spec fn rewritten(raw: Seq<Rib>, m: Map<usize, usize>) -> Seq<Rib> {
    Seq::new(
        raw.len(),
        |j: int|
            if j < 3 {
                raw[j]
            } else {
                relocate(raw[j], m)
            },
    )
}

/// The heap and the roots after a collection. The singletons are copied
/// first, to their own places; the symbol table, the program counter and
/// the stack are traced, in this order; then the references are rewritten
/// and the roots forwarded.
pub open spec fn collected(h: Seq<Rib>, roots: Roots) -> (Seq<Rib>, Roots) {
    let m0 = Map::<usize, usize>::empty().insert(0, 0).insert(1, 1).insert(2, 2);
    let n0 = seq![h[0], h[1], h[2]];
    let (m1, n1) = swept_from(h, roots.symtbl, m0, n0);
    let (m2, n2) = swept_from(h, roots.pc, m1, n1);
    let (m3, n3) = swept_from(h, roots.stack, m2, n2);
    (
        rewritten(n3, m3),
        Roots {
            stack: forward_root(roots.stack, h.len(), m3),
            pc: forward_root(roots.pc, h.len(), m3),
            symtbl: forward_root(roots.symtbl, h.len(), m3),
        },
    )
}

/// A copy in progress: every forwarded rib of the old heap `h` stands, as
/// it was, at its forwarded index of the new heap `nh`; the forwarding map
/// is one to one from its domain onto the indices of `nh`; and the
/// singletons are forwarded to themselves.
pub open spec fn copying(h: Seq<Rib>, nh: Seq<Rib>, m: Map<usize, usize>) -> bool {
    &&& 3 <= nh.len()
    &&& m.dom().finite()
    &&& m.dom().len() == nh.len()
    &&& m.dom().contains(0) && m.dom().contains(1) && m.dom().contains(2)
    &&& m[0] == 0 && m[1] == 1 && m[2] == 2
    &&& forall|k: usize| #[trigger]
        m.dom().contains(k) ==> k < h.len() && m[k] < nh.len() && nh[m[k] as int] == h[k as int]
    &&& injective(m)
    &&& forall|j: usize| j < nh.len() ==> has_source(m, j)
}

/// Whether every reference of a forwarded rib is forwarded or waits on the
/// work list.
pub open spec fn traced(h: Seq<Rib>, m: Map<usize, usize>, list: Seq<usize>) -> bool {
    forall|a: usize, b: usize|
        m.dom().contains(a) && #[trigger] edge(h, a, b) ==> m.dom().contains(b) || list.contains(b)
}

/// Whether `m` agrees with `m0` wherever `m0` is defined, and is defined
/// beyond it only on what `root` reaches.
pub open spec fn grown_from(
    h: Seq<Rib>,
    m0: Map<usize, usize>,
    m: Map<usize, usize>,
    root: usize,
) -> bool {
    &&& forall|k: usize| #[trigger] m0.dom().contains(k) ==> m.dom().contains(k) && m[k] == m0[k]
    &&& forall|k: usize| #[trigger] m.dom().contains(k) ==> m0.dom().contains(k) || reaches(h, root, k)
}

/// A forwarding map on indices below `n` is defined on at most `n` of them.
proof fn lemma_dom_bounded(m: Map<usize, usize>, n: usize)
    requires
        forall|k: usize| #[trigger] m.dom().contains(k) ==> k < n,
    ensures
        m.dom().finite(),
        m.dom().len() <= n,
{
    lemma_below_len(n);
    assert(m.dom().subset_of(below(n as nat)));
    vstd::set_lib::lemma_len_subset(m.dom(), below(n as nat));
}

/// One step of a copy: the rib at `idx`, not yet forwarded, is appended to
/// the new heap, and its pending references go to the work list in place of
/// `idx`. The copy stays a copy, and what it has traced stays traced.
proof fn lemma_copy_step(
    h: Seq<Rib>,
    nh: Seq<Rib>,
    m: Map<usize, usize>,
    rest: Seq<usize>,
    idx: usize,
    m0: Map<usize, usize>,
    root: usize,
)
    requires
        copying(h, nh, m),
        traced(h, m, rest.push(idx)),
        grown_from(h, m0, m, root),
        idx < h.len(),
        reaches(h, root, idx),
        !m.dom().contains(idx),
        h.len() <= usize::MAX,
    ensures
        ({
            let m2 = m.insert(idx, nh.len() as usize);
            let nh2 = nh.push(h[idx as int]);
            let list2 = rest + pending_of(h[idx as int], m);
            &&& copying(h, nh2, m2)
            &&& traced(h, m2, list2)
            &&& grown_from(h, m0, m2, root)
            &&& nh2.len() <= h.len()
            &&& forall|i: int|
                rest.len() <= i < list2.len() ==> reaches(h, root, #[trigger] list2[i])
        }),
{
    assert(nh.len() < h.len()) by {
        let grown = m.insert(idx, 0);
        lemma_dom_bounded(grown, h.len() as usize);
    }
    let rib = h[idx as int];
    let n = nh.len() as usize;
    let m2 = m.insert(idx, n);
    let nh2 = nh.push(rib);
    let add = pending_of(rib, m);
    let list2 = rest + add;
    assert(idx >= 3);
    assert forall|j: usize| j < nh2.len() implies has_source(m2, j) by {
        if j == n {
            assert(m2.dom().contains(idx) && m2[idx] == j);
        } else {
            assert(has_source(m, j));
            let k = choose|k: usize| m.dom().contains(k) && #[trigger] m[k] == j;
            assert(m2.dom().contains(k) && m2[k] == j);
        }
    }
    assert(injective(m2)) by {
        assert forall|a: usize, b: usize|
            m2.dom().contains(a) && m2.dom().contains(b) && #[trigger] m2[a] == #[trigger] m2[b]
        implies a == b by {
            if a != idx && b != idx {
                assert(m[a] == m[b]);
            }
        }
    }
    assert forall|k: usize| #[trigger] m2.dom().contains(k) implies k < h.len() && m2[k]
        < nh2.len() && nh2[m2[k] as int] == h[k as int] by {
        if k != idx {
            assert(m.dom().contains(k));
        }
    }
    assert(copying(h, nh2, m2));
    assert forall|a: usize, b: usize| m2.dom().contains(a) && #[trigger] edge(h, a, b) implies (
    m2.dom().contains(b) || list2.contains(b)) by {
        if a == idx {
            if !m.dom().contains(b) {
                lemma_pending_holds(rib, m, b);
                let i = choose|i: int| 0 <= i < add.len() && add[i] == b;
                assert(list2[rest.len() + i] == b);
            }
        } else {
            assert(m.dom().contains(a));
            if !m.dom().contains(b) {
                assert(rest.push(idx).contains(b));
                let i = choose|i: int| 0 <= i < rest.push(idx).len() && rest.push(idx)[i] == b;
                if i < rest.len() {
                    assert(list2[i] == b);
                }
            }
        }
    }
    assert forall|k: usize| #[trigger] m2.dom().contains(k) implies (m0.dom().contains(k)
        || reaches(h, root, k)) by {
        if k != idx {
            assert(m.dom().contains(k));
        }
    }
    assert forall|k: usize| #[trigger] m0.dom().contains(k) implies m2.dom().contains(k) && m2[k]
        == m0[k] by {
        assert(m.dom().contains(k));
    }
    assert forall|i: int| rest.len() <= i < list2.len() implies reaches(
        h,
        root,
        #[trigger] list2[i],
    ) by {
        let b = list2[i];
        assert(b == add[i - rest.len()]);
        lemma_pending_refers(rib, m, i - rest.len());
        assert(edge(h, idx, b));
        lemma_reaches_edge(h, root, idx, b);
    }
}

/// A reference of a rib that is not forwarded is among the rib's pending
/// references.
proof fn lemma_pending_holds(rib: Rib, m: Map<usize, usize>, b: usize)
    requires
        refers_to(rib, b),
        !m.dom().contains(b),
    ensures
        exists|i: int| 0 <= i < pending_of(rib, m).len() && pending_of(rib, m)[i] == b,
{
    let p = pending_of(rib, m);
    let a = pending(rib.first, m);
    let c = pending(rib.middle, m);
    if rib.first == RibField::Rib(b) {
        assert(p[0] == b);
    } else if rib.middle == RibField::Rib(b) {
        assert(p[a.len() as int] == b);
    } else {
        assert(p[(a.len() + c.len()) as int] == b);
    }
}

/// Each pending reference of a rib is one that the rib refers to.
pub proof fn lemma_pending_refers(rib: Rib, m: Map<usize, usize>, i: int)
    requires
        0 <= i < pending_of(rib, m).len(),
    ensures
        refers_to(rib, pending_of(rib, m)[i]),
{
    let a = pending(rib.first, m);
    let c = pending(rib.middle, m);
    let d = pending(rib.last, m);
    if i < a.len() {
        assert(pending_of(rib, m)[i] == a[i]);
    } else if i < a.len() + c.len() {
        assert(pending_of(rib, m)[i] == c[i - a.len()]);
    } else {
        assert(pending_of(rib, m)[i] == d[i - a.len() - c.len()]);
    }
}

/// What a root reaches lies in the heap, if the root is forwarded and the
/// forwarded ribs hold every rib they refer to.
proof fn lemma_dom_tidy(h: Seq<Rib>, m: Map<usize, usize>, root: usize)
    requires
        closed_under_edges(h, m.dom()),
        m.dom().contains(root),
        forall|k: usize| #[trigger] m.dom().contains(k) ==> k < h.len(),
    ensures
        tidy_from(h, root),
{
    assert forall|j: usize| #[trigger] reaches(h, root, j) implies j < h.len() by {
        lemma_closed_reaches(h, m.dom(), root, j);
    }
}

impl RibHeap {
    /// Adds to the work list each reference of the rib that is not yet
    /// forwarded.
    pub fn scan_for_copiable_rib_refs(
        rib: &Rib,
        list: &mut Vec<usize>,
        index_correspondence: &HashMap<usize, usize>,
    )
        ensures
            final(list)@ == old(list)@ + pending_of(*rib, index_correspondence@),
    {
        broadcast use vstd::std_specs::hash::group_hash_axioms;

        match rib.first {
            RibField::Rib(inner) => {
                if !index_correspondence.contains_key(&inner) {
                    list.push(inner)
                }
            },
            RibField::Number(_) => (),
        }
        match rib.middle {
            RibField::Rib(inner) => {
                if !index_correspondence.contains_key(&inner) {
                    list.push(inner)
                }
            },
            RibField::Number(_) => (),
        }
        match rib.last {
            RibField::Rib(inner) => {
                if !index_correspondence.contains_key(&inner) {
                    list.push(inner)
                }
            },
            RibField::Number(_) => (),
        }
        assert(final(list)@ =~= old(list)@ + pending_of(*rib, index_correspondence@));
    }

    /// Extends a copy by what `start` reaches, and forwards `start`. A
    /// root that is forwarded already is only rewritten. Otherwise a work
    /// list is run from it: an index is taken off the list, and if it is
    /// not yet forwarded, its rib is appended to the new heap as it is, the
    /// index is forwarded to the rib's new place, and the rib's pending
    /// references join the list. Fails where `start` reaches an index that
    /// lies outside the heap.
    pub fn try_sweep(
        &self,
        start: &mut usize,
        new_heap: &mut Vec<Rib>,
        index_correspondence: &mut HashMap<usize, usize>,
    ) -> (r: Result<(), VmError>)
        requires
            *old(start) < self@.len(),
            copying(self@, old(new_heap)@, old(index_correspondence)@),
            closed_under_edges(self@, old(index_correspondence)@.dom()),
        ensures
            r is Ok <==> tidy_from(self@, *old(start)),
            r is Err ==> r == Err::<(), VmError>(VmError::Type),
            r is Ok ==> {
                &&& copying(self@, final(new_heap)@, final(index_correspondence)@)
                &&& closed_under_edges(self@, final(index_correspondence)@.dom())
                &&& grown_from(
                    self@,
                    old(index_correspondence)@,
                    final(index_correspondence)@,
                    *old(start),
                )
                &&& old(new_heap)@.is_prefix_of(final(new_heap)@)
                &&& final(index_correspondence)@.dom().contains(*old(start))
                &&& *final(start) == final(index_correspondence)@[*old(start)]
                &&& (final(index_correspondence)@, final(new_heap)@) == swept_from(
                    self@,
                    *old(start),
                    old(index_correspondence)@,
                    old(new_heap)@,
                )
            },
    {
        broadcast use vstd::std_specs::hash::group_hash_axioms;

        let root = *start;
        let old_len = self.len();
        match index_correspondence.get(&root) {
            Some(v) => {
                *start = *v;
                proof {
                    lemma_dom_tidy(self@, index_correspondence@, root);
                }
                return Ok(());
            },
            None => {},
        }
        *start = new_heap.len();
        let mut list: Vec<usize> = Vec::new();
        list.push(root);
        let ghost m0 = index_correspondence@;
        let ghost nh0 = new_heap@;
        let ghost mut fuel = sweep_fuel();
        proof {
            lemma_reaches_self(self@, root);
            lemma_dom_bounded(m0, old_len);
            assert(list@ =~= seq![root]);
        }
        while list.len() > 0
            invariant
                root == *old(start),
                root < self@.len(),
                4 * (self@.len() - new_heap@.len()) + list@.len() <= fuel,
                swept(self@, list@, index_correspondence@, new_heap@, fuel) == swept(
                    self@,
                    seq![root],
                    m0,
                    nh0,
                    sweep_fuel(),
                ),
                old_len == self@.len(),
                copying(self@, new_heap@, index_correspondence@),
                traced(self@, index_correspondence@, list@),
                grown_from(self@, m0, index_correspondence@, root),
                nh0.is_prefix_of(new_heap@),
                new_heap@.len() <= self@.len(),
                forall|i: int| 0 <= i < list@.len() ==> reaches(self@, root, #[trigger] list@[i]),
                (index_correspondence@.dom().contains(root) && index_correspondence@[root]
                    == *start) || (list@ =~= seq![root] && new_heap@.len() == *start
                    && !index_correspondence@.dom().contains(root)),
            decreases 4 * (self@.len() - new_heap@.len()) + list@.len(),
        {
            let ghost before = list@;
            let idx = list.pop().unwrap();
            let ghost rest = list@;
            assert(before =~= rest.push(idx));
            assert(before[rest.len() as int] == idx);
            assert(rest =~= before.drop_last());
            proof {
                fuel = (fuel - 1) as nat;
            }
            if !index_correspondence.contains_key(&idx) {
                if idx >= old_len {
                    assert(reaches(self@, root, before[rest.len() as int]));
                    return Err(VmError::Type);
                }
                let rib = self.get(&idx);
                proof {
                    lemma_copy_step(
                        self@,
                        new_heap@,
                        index_correspondence@,
                        rest,
                        idx,
                        m0,
                        root,
                    );
                }
                Self::scan_for_copiable_rib_refs(&rib, &mut list, index_correspondence);
                index_correspondence.insert(idx, new_heap.len());
                new_heap.push(rib);
                assert forall|i: int| 0 <= i < list@.len() implies reaches(
                    self@,
                    root,
                    #[trigger] list@[i],
                ) by {
                    if i < rest.len() {
                        assert(list@[i] == before[i]);
                    }
                }
            } else {
                assert forall|a: usize, b: usize|
                    index_correspondence@.dom().contains(a) && #[trigger] edge(
                        self@,
                        a,
                        b,
                    ) implies (index_correspondence@.dom().contains(b) || rest.contains(b)) by {
                    if !index_correspondence@.dom().contains(b) {
                        assert(before.contains(b));
                        let i = choose|i: int| 0 <= i < before.len() && before[i] == b;
                        assert(rest[i] == b);
                    }
                }
                assert forall|i: int| 0 <= i < list@.len() implies reaches(
                    self@,
                    root,
                    #[trigger] list@[i],
                ) by {
                    assert(list@[i] == before[i]);
                }
            }
        }
        assert(closed_under_edges(self@, index_correspondence@.dom())) by {
            assert forall|a: usize, b: usize|
                index_correspondence@.dom().contains(a) && #[trigger] edge(
                    self@,
                    a,
                    b,
                ) implies index_correspondence@.dom().contains(b) by {
                assert(!list@.contains(b));
            }
        }
        proof {
            lemma_dom_tidy(self@, index_correspondence@, root);
        }
        Ok(())
    }

    /// Extends a copy by what `start` reaches, and forwards `start`, in a
    /// heap without dangling references.
    pub fn scan_and_sweep(
        &self,
        start: &mut usize,
        new_heap: &mut Vec<Rib>,
        index_correspondence: &mut HashMap<usize, usize>,
    )
        requires
            heap_closed(self@),
            *old(start) < self@.len(),
            copying(self@, old(new_heap)@, old(index_correspondence)@),
            closed_under_edges(self@, old(index_correspondence)@.dom()),
        ensures
            copying(self@, final(new_heap)@, final(index_correspondence)@),
            closed_under_edges(self@, final(index_correspondence)@.dom()),
            grown_from(
                self@,
                old(index_correspondence)@,
                final(index_correspondence)@,
                *old(start),
            ),
            old(new_heap)@.is_prefix_of(final(new_heap)@),
            final(index_correspondence)@.dom().contains(*old(start)),
            *final(start) == final(index_correspondence)@[*old(start)],
            (final(index_correspondence)@, final(new_heap)@) == swept_from(
                self@,
                *old(start),
                old(index_correspondence)@,
                old(new_heap)@,
            ),
    {
        proof {
            lemma_closed_tidy(self@, Roots { stack: 0, pc: 0, symtbl: 0 });
        }
        let swept = self.try_sweep(start, new_heap, index_correspondence);
        assert(swept is Ok);
    }

    /// Collects the heap: replaces it by a compacted copy of its live ribs
    /// and forwards the three roots. The singletons are copied first, to
    /// their own places. The roots are then traced in the order symbol
    /// table, program counter, stack; a root that lies outside the heap is
    /// left alone. Last, every reference in the new heap above the
    /// singletons is rewritten to its target's new index. Returns the
    /// length of the new heap. Fails, and leaves the heap as it is, where a
    /// live rib holds a dangling reference.
    ///
    /// The new heap is a compacted copy of the live ribs of the old one, and
    /// it is laid out as a collection walks it: collecting it again would
    /// change neither the heap nor the roots.
    pub fn try_collect(&mut self, stack: &mut usize, pc: &mut usize, symtbl: &mut usize) -> (r:
        Result<usize, VmError>)
        requires
            old(self)@.len() >= 3,
        ensures
            r is Ok <==> tidy(
                old(self)@,
                (Roots { stack: *old(stack), pc: *old(pc), symtbl: *old(symtbl) }),
            ),
            r is Err ==> r == Err::<usize, VmError>(VmError::Type) && final(self)@ == old(self)@,
            r matches Ok(live_count) ==> {
                &&& live_count == final(self)@.len()
                &&& is_collection(
                    old(self)@,
                    (Roots { stack: *old(stack), pc: *old(pc), symtbl: *old(symtbl) }),
                    final(self)@,
                    (Roots { stack: *final(stack), pc: *final(pc), symtbl: *final(symtbl) }),
                )
                &&& (
                    final(self)@,
                    (Roots { stack: *final(stack), pc: *final(pc), symtbl: *final(symtbl) }),
                ) == collected(
                    old(self)@,
                    (Roots { stack: *old(stack), pc: *old(pc), symtbl: *old(symtbl) }),
                )
                &&& collected(
                    final(self)@,
                    (Roots { stack: *final(stack), pc: *final(pc), symtbl: *final(symtbl) }),
                ) == (
                    final(self)@,
                    (Roots { stack: *final(stack), pc: *final(pc), symtbl: *final(symtbl) }),
                )
            },
    {
        broadcast use vstd::std_specs::hash::group_hash_axioms;

        let ghost h = self@;
        let ghost roots = Roots { stack: *stack, pc: *pc, symtbl: *symtbl };
        let old_len = self.heap.len();
        let mut new_heap: Vec<Rib> = Vec::with_capacity(vec_capacity(&self.heap));
        let mut index_correspondence: HashMap<usize, usize> = HashMap::new();

        new_heap.push(self.get(&0));
        new_heap.push(self.get(&1));
        new_heap.push(self.get(&2));

        index_correspondence.insert(0, 0);
        index_correspondence.insert(1, 1);
        index_correspondence.insert(2, 2);

        let ghost m0 = index_correspondence@;
        let ghost n0 = new_heap@;
        proof {
            assert(m0 =~= Map::<usize, usize>::empty().insert(0, 0).insert(1, 1).insert(2, 2));
            assert(n0 =~= seq![h[0], h[1], h[2]]);
            assert(m0.dom() =~= set![0usize, 1usize, 2usize]);
            assert(has_source(m0, 0)) by {
                assert(m0.dom().contains(0) && m0[0] == 0);
            }
            assert(has_source(m0, 1)) by {
                assert(m0.dom().contains(1) && m0[1] == 1);
            }
            assert(has_source(m0, 2)) by {
                assert(m0.dom().contains(2) && m0[2] == 2);
            }
            assert(copying(h, new_heap@, m0));
        }

        if *symtbl < old_len {
            match self.try_sweep(symtbl, &mut new_heap, &mut index_correspondence) {
                Ok(()) => {},
                Err(e) => {
                    return Err(e);
                },
            }
        }
        let ghost m1 = index_correspondence@;
        let ghost n1 = new_heap@;
        if *pc < old_len {
            match self.try_sweep(pc, &mut new_heap, &mut index_correspondence) {
                Ok(()) => {},
                Err(e) => {
                    return Err(e);
                },
            }
        }
        let ghost m2 = index_correspondence@;
        let ghost n2 = new_heap@;
        if *stack < old_len {
            match self.try_sweep(stack, &mut new_heap, &mut index_correspondence) {
                Ok(()) => {},
                Err(e) => {
                    return Err(e);
                },
            }
        }
        let ghost m = index_correspondence@;
        let ghost raw = new_heap@;
        proof {
            assert forall|i: usize| #[trigger] m.dom().contains(i) <==> i < h.len() && live(
                h,
                roots,
                i,
            ) by {
                if m.dom().contains(i) {
                    if !m2.dom().contains(i) {
                        assert(reaches(h, roots.stack, i));
                    } else if !m1.dom().contains(i) {
                        assert(reaches(h, roots.pc, i));
                    } else if !m0.dom().contains(i) {
                        assert(reaches(h, roots.symtbl, i));
                    }
                }
                if i < h.len() && live(h, roots, i) {
                    if i < 3 {
                        assert(m0.dom().contains(i));
                        assert(m1.dom().contains(i));
                        assert(m2.dom().contains(i));
                    } else if roots.symtbl < h.len() && reaches(h, roots.symtbl, i) {
                        assert(m1.dom().contains(roots.symtbl));
                        assert(m2.dom().contains(roots.symtbl));
                        lemma_closed_reaches(h, m.dom(), roots.symtbl, i);
                    } else if roots.pc < h.len() && reaches(h, roots.pc, i) {
                        assert(m2.dom().contains(roots.pc));
                        lemma_closed_reaches(h, m.dom(), roots.pc, i);
                    } else {
                        lemma_closed_reaches(h, m.dom(), roots.stack, i);
                    }
                }
            }
            assert(*symtbl == crate::reach::forward_root(roots.symtbl, h.len(), m)) by {
                if roots.symtbl < h.len() {
                    assert(m1.dom().contains(roots.symtbl));
                    assert(m2.dom().contains(roots.symtbl));
                }
            }
            assert(*pc == crate::reach::forward_root(roots.pc, h.len(), m)) by {
                if roots.pc < h.len() {
                    assert(m2.dom().contains(roots.pc));
                }
            }
        }

        let mut index: usize = 3;
        let impossible_ref = new_heap.len();

        while index < impossible_ref
            invariant
                3 <= index <= impossible_ref,
                impossible_ref == raw.len(),
                new_heap@.len() == raw.len(),
                m == index_correspondence@,
                copying(h, raw, m),
                closed_under_edges(h, m.dom()),
                forall|j: int| 3 <= j < index ==> #[trigger] new_heap@[j] == relocate(raw[j], m),
                forall|j: int|
                    0 <= j < 3 || index <= j < raw.len() ==> #[trigger] new_heap@[j] == raw[j],
            decreases impossible_ref - index,
        {
            let rib_looked = new_heap[index];
            proof {
                assert(has_source(m, index));
                let k = choose|k: usize| m.dom().contains(k) && #[trigger] m[k] == index;
                assert(k >= 3) by {
                    if k < 3 {
                        assert(m[k] == k);
                    }
                }
                assert(raw[index as int] == h[k as int]);
                assert forall|b: usize| refers_to(rib_looked, b) implies m.dom().contains(b) by {
                    assert(edge(h, k, b));
                }
                if let RibField::Rib(b) = rib_looked.first {
                    assert(refers_to(rib_looked, b));
                }
                if let RibField::Rib(b) = rib_looked.middle {
                    assert(refers_to(rib_looked, b));
                }
                if let RibField::Rib(b) = rib_looked.last {
                    assert(refers_to(rib_looked, b));
                }
            }
            let updated_rib = Rib {
                first: forwarded(&rib_looked.first, &index_correspondence),
                middle: forwarded(&rib_looked.middle, &index_correspondence),
                last: forwarded(&rib_looked.last, &index_correspondence),
            };
            new_heap[index] = updated_rib;
            index += 1;
        }
        proof {
            let h2 = new_heap@;
            let roots2 = Roots { stack: *stack, pc: *pc, symtbl: *symtbl };
            assert forall|k: usize| m.dom().contains(k) && k >= 3 implies #[trigger] h2[m[k] as int]
                == relocate(h[k as int], m) by {
                if m[k] < 3 {
                    let j = m[k];
                    assert(m.dom().contains(j) && m[j] == m[k]);
                }
            }
            assert(collection_by(h, roots, h2, roots2, m));
            assert(h2 =~= rewritten(raw, m));
            lemma_dom_bounded(m, old_len);
            assert(crate::gc_again::extends(m1, m2));
            assert(crate::gc_again::extends(m2, m));
            assert(m2.dom().contains(roots.symtbl) || roots.symtbl >= h.len());
            crate::gc_again::lemma_recollect(h, roots, h2, m0, n0, m1, n1, m2, n2, m, raw);
        }
        self.heap = new_heap;
        Ok(index)
    }

    /// Collects a heap without dangling references: replaces it by a
    /// compacted copy of its live ribs, forwards the three roots, and
    /// returns the length of the new heap.
    pub fn garbage_collect(
        &mut self,
        stack: &mut usize,
        pc: &mut usize,
        symtbl: &mut usize,
    ) -> (live_count: usize)
        requires
            old(self).wf(),
        ensures
            live_count == final(self)@.len(),
            is_collection(
                old(self)@,
                (Roots { stack: *old(stack), pc: *old(pc), symtbl: *old(symtbl) }),
                final(self)@,
                (Roots { stack: *final(stack), pc: *final(pc), symtbl: *final(symtbl) }),
            ),
            (final(self)@, (Roots { stack: *final(stack), pc: *final(pc), symtbl: *final(symtbl) }))
                == collected(
                old(self)@,
                (Roots { stack: *old(stack), pc: *old(pc), symtbl: *old(symtbl) }),
            ),
            collected(
                final(self)@,
                (Roots { stack: *final(stack), pc: *final(pc), symtbl: *final(symtbl) }),
            ) == (
                final(self)@,
                (Roots { stack: *final(stack), pc: *final(pc), symtbl: *final(symtbl) }),
            ),
    {
        proof {
            lemma_closed_tidy(
                self@,
                Roots { stack: *stack, pc: *pc, symtbl: *symtbl },
            );
        }
        match self.try_collect(stack, pc, symtbl) {
            Ok(live_count) => live_count,
            Err(_) => 0,
        }
    }
}


/// A field with its reference, if it is one, replaced by the index that the
/// reference is forwarded to.
fn forwarded(f: &RibField, index_correspondence: &HashMap<usize, usize>) -> (r: RibField)
    requires
        *f matches RibField::Rib(i) ==> index_correspondence@.dom().contains(i),
    ensures
        r == crate::reach::forward_field(*f, index_correspondence@),
{
    broadcast use vstd::std_specs::hash::group_hash_axioms;

    match f {
        RibField::Rib(i) => match index_correspondence.get(i) {
            Some(j) => RibField::Rib(*j),
            None => *f,
        },
        RibField::Number(_) => *f,
    }
}

} // verus!
