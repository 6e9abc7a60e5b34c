//! What holds of every collection.

use crate::field::{Rib, RibField};
use crate::gc::{below, lemma_below_len};
use crate::heap::{heap_closed, rib_closed};
use crate::reach::{
    collection_by, edge, has_source, is_collection, is_path, lemma_reaches_edge,
    lemma_reaches_self, live, reaches, refers_to, relocate, Roots,
};
use vstd::prelude::*;

verus! {

/// The live ribs of a heap.
pub open spec fn live_set(h: Seq<Rib>, roots: Roots) -> Set<usize> {
    Set::new(|i: usize| i < h.len() && live(h, roots, i))
}

/// Whether the three roots lie in a heap of `n` ribs.
pub open spec fn roots_within(roots: Roots, n: nat) -> bool {
    roots.stack < n && roots.pc < n && roots.symtbl < n
}

/// Whether the singletons hold no reference to a rib at or above `n`.
pub open spec fn singletons_closed(h: Seq<Rib>, n: nat) -> bool {
    h.len() >= 3 && rib_closed(h[0], n) && rib_closed(h[1], n) && rib_closed(h[2], n)
}

/// In a collected heap every live rib that is no singleton has its
/// references forwarded to indices of the new heap.
proof fn lemma_forwarded_in_heap(
    h: Seq<Rib>,
    roots: Roots,
    h2: Seq<Rib>,
    roots2: Roots,
    m: Map<usize, usize>,
    k: usize,
)
    requires
        heap_closed(h),
        collection_by(h, roots, h2, roots2, m),
        m.dom().contains(k),
        k >= 3,
    ensures
        rib_closed(relocate(h[k as int], m), h2.len()),
        forall|b: usize| refers_to(h[k as int], b) ==> m.dom().contains(b),
{
    assert(k < h.len() && live(h, roots, k));
    assert(rib_closed(h[k as int], h.len()));
    assert forall|b: usize| refers_to(h[k as int], b) implies m.dom().contains(b) by {
        assert(edge(h, k, b));
        if roots.symtbl < h.len() && reaches(h, roots.symtbl, k) {
            lemma_reaches_edge(h, roots.symtbl, k, b);
        } else if roots.pc < h.len() && reaches(h, roots.pc, k) {
            lemma_reaches_edge(h, roots.pc, k, b);
        } else {
            lemma_reaches_edge(h, roots.stack, k, b);
        }
        assert(live(h, roots, b));
    }
    let r = h[k as int];
    if let RibField::Rib(b) = r.first {
        assert(refers_to(r, b));
    }
    if let RibField::Rib(b) = r.middle {
        assert(refers_to(r, b));
    }
    if let RibField::Rib(b) = r.last {
        assert(refers_to(r, b));
    }
}

/// A collection keeps the singletons at indices 0, 1 and 2, with the ribs
/// they had.
pub proof fn lemma_collection_keeps_singletons(
    h: Seq<Rib>,
    roots: Roots,
    h2: Seq<Rib>,
    roots2: Roots,
)
    requires
        is_collection(h, roots, h2, roots2),
    ensures
        h2.len() >= 3,
        h2[0] == h[0],
        h2[1] == h[1],
        h2[2] == h[2],
{
    let m = choose|m: Map<usize, usize>| #[trigger] collection_by(h, roots, h2, roots2, m);
}

/// After a collection of a heap without dangling references, every
/// reference in the new heap points at one of its ribs, and the roots lie
/// in it, provided that the singletons hold no reference that the new heap
/// is too short for. (The collector copies the singletons as they are: a
/// reference stored in one of them is neither followed nor rewritten.)
pub proof fn lemma_collection_closed(h: Seq<Rib>, roots: Roots, h2: Seq<Rib>, roots2: Roots)
    requires
        heap_closed(h),
        roots_within(roots, h.len()),
        is_collection(h, roots, h2, roots2),
        singletons_closed(h, h2.len()),
    ensures
        heap_closed(h2),
        roots_within(roots2, h2.len()),
{
    let m = choose|m: Map<usize, usize>| #[trigger] collection_by(h, roots, h2, roots2, m);
    assert forall|j: int| 0 <= j < h2.len() implies rib_closed(#[trigger] h2[j], h2.len()) by {
        if j < 3 {
        } else {
            assert(has_source(m, j as usize));
            let k = choose|k: usize| m.dom().contains(k) && #[trigger] m[k] == j as usize;
            lemma_forwarded_in_heap(h, roots, h2, roots2, m, k);
            assert(h2[m[k] as int] == relocate(h[k as int], m));
        }
    }
    lemma_reaches_self(h, roots.stack);
    lemma_reaches_self(h, roots.pc);
    lemma_reaches_self(h, roots.symtbl);
    assert(m.dom().contains(roots.stack));
    assert(m.dom().contains(roots.pc));
    assert(m.dom().contains(roots.symtbl));
}

/// After a collection the heap holds as many ribs as were live before it.
pub proof fn lemma_collection_size(h: Seq<Rib>, roots: Roots, h2: Seq<Rib>, roots2: Roots)
    requires
        is_collection(h, roots, h2, roots2),
    ensures
        live_set(h, roots).finite(),
        live_set(h, roots).len() == h2.len(),
{
    let m = choose|m: Map<usize, usize>| #[trigger] collection_by(h, roots, h2, roots2, m);
    let s = live_set(h, roots);
    assert(s =~= m.dom());
    lemma_below_len(h.len() as usize);
    assert(s.subset_of(below(h.len())));
    vstd::set_lib::lemma_len_subset(s, below(h.len()));
    let f = |k: usize| m[k];
    let t = below(h2.len());
    assert(s.map(f) =~= t) by {
        assert forall|j: usize| t.contains(j) implies s.map(f).contains(j) by {
            assert(has_source(m, j));
            let k = choose|k: usize| m.dom().contains(k) && #[trigger] m[k] == j;
            assert(s.contains(k) && f(k) == j);
        }
        assert forall|j: usize| s.map(f).contains(j) implies t.contains(j) by {
            let k = choose|k: usize| s.contains(k) && j == f(k);
            assert(m.dom().contains(k));
            assert(m[k] < h2.len());
        }
    }
    assert(vstd::relations::injective_on(f, s)) by {
        assert forall|a: usize, b: usize| s.contains(a) && s.contains(b) && f(a) == f(b) implies a
            == b by {
            assert(m.dom().contains(a) && m.dom().contains(b) && m[a] == m[b]);
        }
    }
    vstd::set_lib::lemma_map_size(s, t, f);
    lemma_below_len(h2.len() as usize);
}

/// A path of the old heap that starts at a live rib is forwarded to a path
/// of the new heap.
proof fn lemma_forward_path(
    h: Seq<Rib>,
    roots: Roots,
    h2: Seq<Rib>,
    roots2: Roots,
    m: Map<usize, usize>,
    p: Seq<usize>,
    k: int,
)
    requires
        heap_closed(h),
        collection_by(h, roots, h2, roots2, m),
        is_path(h, p),
        m.dom().contains(p[0]),
        0 <= k < p.len(),
    ensures
        m.dom().contains(p[k]),
        reaches(h2, m[p[0]], m[p[k]]),
    decreases k,
{
    if k == 0 {
        lemma_reaches_self(h2, m[p[0]]);
    } else {
        lemma_forward_path(h, roots, h2, roots2, m, p, k - 1);
        let a = p[k - 1];
        let b = p[k];
        assert(edge(h, p[k - 1], p[k - 1 + 1]));
        lemma_forwarded_in_heap(h, roots, h2, roots2, m, a);
        assert(m.dom().contains(b));
        assert(m[a] >= 3) by {
            if m[a] < 3 {
                let j = m[a];
                assert(m.dom().contains(j) && m[j] == j);
            }
        }
        assert(h2[m[a] as int] == relocate(h[a as int], m));
        assert(refers_to(h2[m[a] as int], m[b]));
        assert(edge(h2, m[a], m[b]));
        lemma_reaches_edge(h2, m[p[0]], m[a], m[b]);
    }
}

/// Whatever a live root reaches in the old heap, its forwarded index is
/// reached by the forwarded root in the new heap.
proof fn lemma_forward_reaches(
    h: Seq<Rib>,
    roots: Roots,
    h2: Seq<Rib>,
    roots2: Roots,
    m: Map<usize, usize>,
    root: usize,
    k: usize,
)
    requires
        heap_closed(h),
        collection_by(h, roots, h2, roots2, m),
        m.dom().contains(root),
        reaches(h, root, k),
    ensures
        reaches(h2, m[root], m[k]),
{
    let p = choose|p: Seq<usize>| #[trigger] is_path(h, p) && p[0] == root && p.last() == k;
    lemma_forward_path(h, roots, h2, roots2, m, p, p.len() - 1);
}

/// A heap that has just been collected holds live ribs only.
pub proof fn lemma_collected_all_live(
    h: Seq<Rib>,
    roots: Roots,
    h2: Seq<Rib>,
    roots2: Roots,
    j: usize,
)
    requires
        heap_closed(h),
        is_collection(h, roots, h2, roots2),
        j < h2.len(),
    ensures
        live(h2, roots2, j),
{
    let m = choose|m: Map<usize, usize>| #[trigger] collection_by(h, roots, h2, roots2, m);
    if j >= 3 {
        assert(has_source(m, j));
        let k = choose|k: usize| m.dom().contains(k) && #[trigger] m[k] == j;
        assert(k < h.len() && live(h, roots, k));
        if roots.symtbl < h.len() && reaches(h, roots.symtbl, k) {
            lemma_reaches_self(h, roots.symtbl);
            assert(m.dom().contains(roots.symtbl));
            lemma_forward_reaches(h, roots, h2, roots2, m, roots.symtbl, k);
            assert(m[roots.symtbl] < h2.len());
        } else if roots.pc < h.len() && reaches(h, roots.pc, k) {
            lemma_reaches_self(h, roots.pc);
            assert(m.dom().contains(roots.pc));
            lemma_forward_reaches(h, roots, h2, roots2, m, roots.pc, k);
            assert(m[roots.pc] < h2.len());
        } else {
            lemma_reaches_self(h, roots.stack);
            assert(m.dom().contains(roots.stack));
            lemma_forward_reaches(h, roots, h2, roots2, m, roots.stack, k);
            assert(m[roots.stack] < h2.len());
        }
    }
}

/// Two collections in a row: the second finds every rib live and leaves the
/// heap's length as the first made it.
pub proof fn lemma_collect_twice(
    h: Seq<Rib>,
    roots: Roots,
    h2: Seq<Rib>,
    roots2: Roots,
    h3: Seq<Rib>,
    roots3: Roots,
)
    requires
        heap_closed(h),
        is_collection(h, roots, h2, roots2),
        is_collection(h2, roots2, h3, roots3),
    ensures
        h3.len() == h2.len(),
{
    lemma_collection_size(h2, roots2, h3, roots3);
    assert(live_set(h2, roots2) =~= below(h2.len())) by {
        assert forall|j: usize| j < h2.len() implies live(h2, roots2, j) by {
            lemma_collected_all_live(h, roots, h2, roots2, j);
        }
    }
    lemma_below_len(h2.len() as usize);
}

} // verus!
