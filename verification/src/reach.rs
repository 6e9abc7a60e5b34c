//! Which ribs a heap keeps alive, and what it means for one heap to be the
//! compacted copy of another.

use crate::field::{Rib, RibField};
use vstd::prelude::*;

verus! {

/// The three roots of the machine, as heap indices.
pub struct Roots {
    pub stack: usize,
    pub pc: usize,
    pub symtbl: usize,
}

/// Whether one of a rib's fields is a reference to `b`.
pub open spec fn refers_to(r: Rib, b: usize) -> bool {
    r.first == RibField::Rib(b) || r.middle == RibField::Rib(b) || r.last == RibField::Rib(b)
}

/// Whether the rib at `a` holds a reference to `b`. The three singletons
/// are leaves: the collector never follows their fields.
pub open spec fn edge(h: Seq<Rib>, a: usize, b: usize) -> bool {
    3 <= a < h.len() && refers_to(h[a as int], b)
}

/// Whether each index of a non-empty sequence is joined to the next by an
/// edge.
pub open spec fn is_path(h: Seq<Rib>, p: Seq<usize>) -> bool {
    p.len() > 0 && forall|k: int| 0 <= k < p.len() - 1 ==> edge(h, #[trigger] p[k], p[k + 1])
}

/// Whether a path leads from `a` to `b`.
pub open spec fn reaches(h: Seq<Rib>, a: usize, b: usize) -> bool {
    exists|p: Seq<usize>| #[trigger] is_path(h, p) && p[0] == a && p.last() == b
}

/// Whether the rib at `i` survives a collection: it is a singleton, or a
/// root that lies in the heap reaches it.
pub open spec fn live(h: Seq<Rib>, roots: Roots, i: usize) -> bool {
    ||| i < 3
    ||| roots.symtbl < h.len() && reaches(h, roots.symtbl, i)
    ||| roots.pc < h.len() && reaches(h, roots.pc, i)
    ||| roots.stack < h.len() && reaches(h, roots.stack, i)
}

/// Whether every index that `root` reaches lies in the heap.
pub open spec fn tidy_from(h: Seq<Rib>, root: usize) -> bool {
    forall|j: usize| #[trigger] reaches(h, root, j) ==> j < h.len()
}

/// Whether every live index lies in the heap: no live rib holds a
/// dangling reference.
pub open spec fn tidy(h: Seq<Rib>, roots: Roots) -> bool {
    &&& h.len() >= 3
    &&& roots.symtbl < h.len() ==> tidy_from(h, roots.symtbl)
    &&& roots.pc < h.len() ==> tidy_from(h, roots.pc)
    &&& roots.stack < h.len() ==> tidy_from(h, roots.stack)
}

/// A field with its reference, if it is one, sent through the forwarding
/// map.
pub open spec fn forward_field(f: RibField, m: Map<usize, usize>) -> RibField {
    match f {
        RibField::Rib(i) => RibField::Rib(m[i]),
        RibField::Number(n) => RibField::Number(n),
    }
}

/// A rib with each of its references sent through the forwarding map.
pub open spec fn relocate(r: Rib, m: Map<usize, usize>) -> Rib {
    Rib {
        first: forward_field(r.first, m),
        middle: forward_field(r.middle, m),
        last: forward_field(r.last, m),
    }
}

/// A root after a collection: forwarded if it lay in the old heap, left as
/// it was if it did not.
pub open spec fn forward_root(root: usize, n: nat, m: Map<usize, usize>) -> usize {
    if root < n {
        m[root]
    } else {
        root
    }
}

/// Whether the map sends no two indices to the same place.
pub open spec fn injective(m: Map<usize, usize>) -> bool {
    forall|a: usize, b: usize|
        m.dom().contains(a) && m.dom().contains(b) && #[trigger] m[a] == #[trigger] m[b] ==> a == b
}

/// Whether something is sent to `j`.
pub open spec fn has_source(m: Map<usize, usize>, j: usize) -> bool {
    exists|k: usize| m.dom().contains(k) && #[trigger] m[k] == j
}

/// Whether every index below `n` has something sent to it, and nothing is
/// sent elsewhere.
pub open spec fn onto(m: Map<usize, usize>, n: nat) -> bool {
    &&& forall|k: usize| m.dom().contains(k) ==> #[trigger] m[k] < n
    &&& forall|j: usize| j < n ==> has_source(m, j)
}

/// Whether `h2` with `roots2` is the compacted copy of `h` with `roots`
/// under the forwarding map `m`: the map is defined on the live ribs of `h`
/// and on no others, and it is one to one onto the indices of `h2`; the
/// singletons keep their places and their fields, untouched; every other
/// live rib stands at its forwarded index with its references forwarded;
/// and the roots are forwarded.
pub open spec fn collection_by(
    h: Seq<Rib>,
    roots: Roots,
    h2: Seq<Rib>,
    roots2: Roots,
    m: Map<usize, usize>,
) -> bool {
    &&& 3 <= h.len() <= usize::MAX
    &&& 3 <= h2.len() <= usize::MAX
    &&& forall|i: usize| #[trigger] m.dom().contains(i) <==> i < h.len() && live(h, roots, i)
    &&& injective(m)
    &&& onto(m, h2.len())
    &&& m[0] == 0 && m[1] == 1 && m[2] == 2
    &&& h2[0] == h[0] && h2[1] == h[1] && h2[2] == h[2]
    &&& forall|k: usize|
        m.dom().contains(k) && k >= 3 ==> #[trigger] h2[m[k] as int] == relocate(h[k as int], m)
    &&& roots2.symtbl == forward_root(roots.symtbl, h.len(), m)
    &&& roots2.pc == forward_root(roots.pc, h.len(), m)
    &&& roots2.stack == forward_root(roots.stack, h.len(), m)
}

/// Whether `h2` with `roots2` is a compacted copy of `h` with `roots`.
pub open spec fn is_collection(h: Seq<Rib>, roots: Roots, h2: Seq<Rib>, roots2: Roots) -> bool {
    exists|m: Map<usize, usize>| #[trigger] collection_by(h, roots, h2, roots2, m)
}

/// Every index reaches itself.
pub proof fn lemma_reaches_self(h: Seq<Rib>, a: usize)
    ensures
        reaches(h, a, a),
{
    let p = seq![a];
    assert(is_path(h, p) && p[0] == a && p.last() == a);
}

/// A path reaches one edge further.
pub proof fn lemma_reaches_edge(h: Seq<Rib>, a: usize, b: usize, c: usize)
    requires
        reaches(h, a, b),
        edge(h, b, c),
    ensures
        reaches(h, a, c),
{
    let p = choose|p: Seq<usize>| #[trigger] is_path(h, p) && p[0] == a && p.last() == b;
    let q = p.push(c);
    assert forall|k: int| 0 <= k < q.len() - 1 implies edge(h, #[trigger] q[k], q[k + 1]) by {
        if k < p.len() - 1 {
            assert(edge(h, p[k], p[k + 1]));
        }
    }
    assert(is_path(h, q) && q[0] == a && q.last() == c);
}

/// In a heap without dangling references every path stays in the heap.
proof fn lemma_closed_path_in_heap(h: Seq<Rib>, p: Seq<usize>, k: int)
    requires
        crate::heap::heap_closed(h),
        is_path(h, p),
        p[0] < h.len(),
        0 <= k < p.len(),
    ensures
        p[k] < h.len(),
    decreases k,
{
    if k > 0 {
        lemma_closed_path_in_heap(h, p, k - 1);
        assert(edge(h, p[k - 1], p[k - 1 + 1]));
        assert(crate::heap::rib_closed(h[p[k - 1] as int], h.len()));
    }
}

/// A heap without dangling references is tidy.
pub proof fn lemma_closed_tidy(h: Seq<Rib>, roots: Roots)
    requires
        h.len() >= 3,
        crate::heap::heap_closed(h),
    ensures
        tidy(h, roots),
        forall|root: usize| root < h.len() ==> tidy_from(h, root),
{
    assert forall|root: usize| root < h.len() implies tidy_from(h, root) by {
        assert forall|j: usize| #[trigger] reaches(h, root, j) implies j < h.len() by {
            let p = choose|p: Seq<usize>| #[trigger] is_path(h, p) && p[0] == root && p.last() == j;
            lemma_closed_path_in_heap(h, p, p.len() - 1);
        }
    }
}

/// Whether a set of indices holds, with each rib that is no singleton,
/// every rib that it refers to.
pub open spec fn closed_under_edges(h: Seq<Rib>, s: Set<usize>) -> bool {
    forall|a: usize, b: usize| s.contains(a) && #[trigger] edge(h, a, b) ==> s.contains(b)
}

/// A set closed under edges holds whatever its members reach.
pub proof fn lemma_closed_reaches(h: Seq<Rib>, s: Set<usize>, a: usize, b: usize)
    requires
        closed_under_edges(h, s),
        s.contains(a),
        reaches(h, a, b),
    ensures
        s.contains(b),
{
    let p = choose|p: Seq<usize>| #[trigger] is_path(h, p) && p[0] == a && p.last() == b;
    lemma_closed_path(h, s, p, p.len() - 1);
}

/// A set closed under edges holds every index of a path that starts in it.
proof fn lemma_closed_path(h: Seq<Rib>, s: Set<usize>, p: Seq<usize>, k: int)
    requires
        closed_under_edges(h, s),
        is_path(h, p),
        s.contains(p[0]),
        0 <= k < p.len(),
    ensures
        s.contains(p[k]),
    decreases k,
{
    if k > 0 {
        lemma_closed_path(h, s, p, k - 1);
        assert(edge(h, p[k - 1], p[k - 1 + 1]));
    }
}

} // verus!
