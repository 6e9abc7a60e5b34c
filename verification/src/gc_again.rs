//! A heap that has just been collected is laid out in the order in which a
//! collection walks it: collecting it again changes nothing.

use crate::field::{Rib, RibField};
use crate::gc::{collected, pending, pending_of, rewritten, swept, swept_from};
use crate::reach::{
    closed_under_edges, edge, forward_field, forward_root, has_source, injective, refers_to,
    relocate, Roots,
};
use vstd::prelude::*;

verus! {

/// The forwarding map under which nothing moves: each index below `n` goes
/// to itself.
pub open spec fn id_below(n: nat) -> Map<usize, usize> {
    Map::new(|j: usize| j < n, |j: usize| j)
}

/// The indices of a list, forwarded.
pub open spec fn forwarded_list(list: Seq<usize>, m: Map<usize, usize>) -> Seq<usize> {
    Seq::new(list.len(), |i: int| m[list[i]])
}

/// Whether `big` is defined wherever `m` is, with the same values.
pub open spec fn extends(m: Map<usize, usize>, big: Map<usize, usize>) -> bool {
    forall|k: usize| #[trigger] m.dom().contains(k) ==> big.dom().contains(k) && big[k] == m[k]
}

/// Whether `m` is the part of `big` that forwards below `n`.
pub open spec fn settled(m: Map<usize, usize>, n: nat, big: Map<usize, usize>) -> bool {
    forall|k: usize|
        #![trigger m.dom().contains(k)]
        #![trigger big.dom().contains(k)]
        m.dom().contains(k) <==> big.dom().contains(k) && big[k] < n
}

/// The map that a run of the work list gives extends the map that the run
/// started from, and the new heap does not shrink.
pub proof fn lemma_swept_extends(
    h: Seq<Rib>,
    list: Seq<usize>,
    m: Map<usize, usize>,
    nh: Seq<Rib>,
    fuel: nat,
)
    ensures
        extends(m, swept(h, list, m, nh, fuel).0),
        nh.len() <= swept(h, list, m, nh, fuel).1.len(),
    decreases fuel,
{
    if fuel == 0 || list.len() == 0 {
    } else {
        let idx = list.last();
        let rest = list.drop_last();
        if m.dom().contains(idx) {
            lemma_swept_extends(h, rest, m, nh, (fuel - 1) as nat);
        } else {
            let m2 = m.insert(idx, nh.len() as usize);
            lemma_swept_extends(
                h,
                rest + pending_of(h[idx as int], m),
                m2,
                nh.push(h[idx as int]),
                (fuel - 1) as nat,
            );
            let mf = swept(h, list, m, nh, fuel).0;
            assert forall|k: usize| #[trigger] m.dom().contains(k) implies mf.dom().contains(k)
                && mf[k] == m[k] by {
                assert(m2.dom().contains(k));
            }
        }
    }
}

/// What a forwarded field adds to the work list of the second run is what
/// the field added to the work list of the first, forwarded.
proof fn lemma_pending_forward(f: RibField, m: Map<usize, usize>, big: Map<usize, usize>, n: nat)
    requires
        settled(m, n, big),
        f matches RibField::Rib(c) ==> big.dom().contains(c),
    ensures
        pending(forward_field(f, big), id_below(n)) =~= forwarded_list(pending(f, m), big),
{
    if let RibField::Rib(c) = f {
        assert(m.dom().contains(c) <==> big[c] < n);
    }
}

/// A list forwarded is its parts forwarded.
proof fn lemma_forwarded_concat(a: Seq<usize>, b: Seq<usize>, m: Map<usize, usize>)
    ensures
        forwarded_list(a + b, m) =~= forwarded_list(a, m) + forwarded_list(b, m),
{
}

/// The second run mirrors the first. Let `big` be the forwarding map that
/// the whole first collection ends with, and `h2` the heap it leaves. Where
/// the first run, on the old heap, stands at a work list, a map and a new
/// heap, the second run, on `h2`, stands at the forwarded work list, at the
/// map under which nothing below the new heap's length moves, and at the
/// beginning of `h2` of that length; and so they end.
pub proof fn lemma_resweep(
    h: Seq<Rib>,
    h2: Seq<Rib>,
    big: Map<usize, usize>,
    list: Seq<usize>,
    m: Map<usize, usize>,
    nh: Seq<Rib>,
    fuel: nat,
)
    requires
        extends(swept(h, list, m, nh, fuel).0, big),
        settled(m, nh.len(), big),
        injective(big),
        closed_under_edges(h, big.dom()),
        forall|k: usize|
            big.dom().contains(k) && k >= 3 ==> #[trigger] h2[big[k] as int] == relocate(
                h[k as int],
                big,
            ),
        forall|i: int| 0 <= i < list.len() ==> big.dom().contains(#[trigger] list[i]),
        forall|k: usize| #[trigger] big.dom().contains(k) ==> big[k] < h2.len() && k < h.len(),
        big.dom().contains(0) && big.dom().contains(1) && big.dom().contains(2),
        big[0] == 0 && big[1] == 1 && big[2] == 2,
        3 <= nh.len() <= h2.len() <= usize::MAX,
    ensures
        swept(
            h2,
            forwarded_list(list, big),
            id_below(nh.len()),
            h2.take(nh.len() as int),
            fuel,
        ) == (
            id_below(swept(h, list, m, nh, fuel).1.len()),
            h2.take(swept(h, list, m, nh, fuel).1.len() as int),
        ),
        settled(swept(h, list, m, nh, fuel).0, swept(h, list, m, nh, fuel).1.len(), big),
        nh.len() <= swept(h, list, m, nh, fuel).1.len() <= h2.len(),
    decreases fuel,
{
    let n = nh.len();
    let fl = forwarded_list(list, big);
    if fuel == 0 || list.len() == 0 {
    } else {
        let idx = list.last();
        let rest = list.drop_last();
        assert(big.dom().contains(list[list.len() - 1]));
        assert(fl.last() == big[idx]);
        assert(fl.drop_last() =~= forwarded_list(rest, big));
        assert(m.dom().contains(idx) <==> id_below(n).dom().contains(big[idx]));
        if m.dom().contains(idx) {
            lemma_resweep(h, h2, big, rest, m, nh, (fuel - 1) as nat);
        } else {
            let rib = h[idx as int];
            let m2 = m.insert(idx, n as usize);
            let nh2 = nh.push(rib);
            let add = pending_of(rib, m);
            let list2 = rest + add;
            let mf = swept(h, list, m, nh, fuel).0;
            lemma_swept_extends(h, list2, m2, nh2, (fuel - 1) as nat);
            assert(m2.dom().contains(idx));
            assert(mf[idx] == n);
            assert(big[idx] == n);
            assert(idx >= 3) by {
                if idx < 3 {
                    assert(big.dom().contains(idx) && big[idx] < n);
                }
            }
            assert(settled(m2, n + 1, big)) by {
                assert forall|k: usize|
                    #![trigger m2.dom().contains(k)]
                    #![trigger big.dom().contains(k)]
                    m2.dom().contains(k) <==> big.dom().contains(k) && big[k] < n + 1 by {
                    if big.dom().contains(k) && big[k] == n {
                        assert(big[k] == big[idx]);
                    }
                }
            }
            assert forall|c: usize| refers_to(rib, c) implies big.dom().contains(c) by {
                assert(edge(h, idx, c));
            }
            if let RibField::Rib(c) = rib.first {
                assert(refers_to(rib, c));
            }
            if let RibField::Rib(c) = rib.middle {
                assert(refers_to(rib, c));
            }
            if let RibField::Rib(c) = rib.last {
                assert(refers_to(rib, c));
            }
            assert forall|i: int| 0 <= i < list2.len() implies big.dom().contains(
                #[trigger] list2[i],
            ) by {
                if i < rest.len() {
                    assert(list2[i] == list[i]);
                } else {
                    crate::gc::lemma_pending_refers(rib, m, i - rest.len());
                }
            }
            // The rib stands in `h2` at `n`, with its references forwarded.
            assert(h2[big[idx] as int] == relocate(rib, big));
            lemma_pending_forward(rib.first, m, big, n);
            lemma_pending_forward(rib.middle, m, big, n);
            lemma_pending_forward(rib.last, m, big, n);
            lemma_forwarded_concat(pending(rib.first, m), pending(rib.middle, m), big);
            lemma_forwarded_concat(
                pending(rib.first, m) + pending(rib.middle, m),
                pending(rib.last, m),
                big,
            );
            lemma_forwarded_concat(rest, add, big);
            assert(pending_of(h2[n as int], id_below(n)) =~= forwarded_list(add, big));
            assert(forwarded_list(rest, big) + pending_of(h2[n as int], id_below(n))
                =~= forwarded_list(list2, big));
            assert(id_below(n).insert(n as usize, n as usize) =~= id_below(n + 1));
            assert(h2.take(n as int).push(h2[n as int]) =~= h2.take((n + 1) as int));
            lemma_resweep(h, h2, big, list2, m2, nh2, (fuel - 1) as nat);
        }
    }
}

/// What the first collection leaves behind, as the second finds it: `big`
/// is the forwarding map that the first collection ended with, one to one
/// from the live ribs of `h` onto the indices of `h2`, and every live rib
/// above the singletons stands in `h2` with its references forwarded.
pub open spec fn left_by(h: Seq<Rib>, h2: Seq<Rib>, big: Map<usize, usize>) -> bool {
    &&& injective(big)
    &&& closed_under_edges(h, big.dom())
    &&& forall|k: usize|
        big.dom().contains(k) && k >= 3 ==> #[trigger] h2[big[k] as int] == relocate(
            h[k as int],
            big,
        )
    &&& forall|k: usize| #[trigger] big.dom().contains(k) ==> big[k] < h2.len() && k < h.len()
    &&& big.dom().contains(0) && big.dom().contains(1) && big.dom().contains(2)
    &&& big[0] == 0 && big[1] == 1 && big[2] == 2
    &&& 3 <= h2.len() <= h.len() <= usize::MAX
}

/// The second trace of a root mirrors the first.
pub proof fn lemma_resweep_root(
    h: Seq<Rib>,
    h2: Seq<Rib>,
    big: Map<usize, usize>,
    root: usize,
    m: Map<usize, usize>,
    nh: Seq<Rib>,
)
    requires
        left_by(h, h2, big),
        extends(swept_from(h, root, m, nh).0, big),
        settled(m, nh.len(), big),
        root < h.len() ==> big.dom().contains(root),
        3 <= nh.len() <= h2.len(),
    ensures
        swept_from(
            h2,
            forward_root(root, h.len(), big),
            id_below(nh.len()),
            h2.take(nh.len() as int),
        ) == (
            id_below(swept_from(h, root, m, nh).1.len()),
            h2.take(swept_from(h, root, m, nh).1.len() as int),
        ),
        settled(swept_from(h, root, m, nh).0, swept_from(h, root, m, nh).1.len(), big),
        nh.len() <= swept_from(h, root, m, nh).1.len() <= h2.len(),
{
    if root < h.len() && !m.dom().contains(root) {
        let list = seq![root];
        assert(forwarded_list(list, big) =~= seq![big[root]]);
        lemma_resweep(h, h2, big, list, m, nh, crate::gc::sweep_fuel());
    }
}

/// Collecting a heap that has just been collected changes nothing: the
/// second collection leaves the same heap and the same roots. `m0` to `m3`
/// and `n0` to `n3` are the forwarding maps and the new heaps of the first
/// collection before and after each of its three traces.
pub proof fn lemma_recollect(
    h: Seq<Rib>,
    roots: Roots,
    h2: Seq<Rib>,
    m0: Map<usize, usize>,
    n0: Seq<Rib>,
    m1: Map<usize, usize>,
    n1: Seq<Rib>,
    m2: Map<usize, usize>,
    n2: Seq<Rib>,
    m3: Map<usize, usize>,
    n3: Seq<Rib>,
)
    requires
        left_by(h, h2, m3),
        m0 =~= Map::<usize, usize>::empty().insert(0, 0).insert(1, 1).insert(2, 2),
        n0.len() == 3,
        (m1, n1) == swept_from(h, roots.symtbl, m0, n0),
        (m2, n2) == swept_from(h, roots.pc, m1, n1),
        (m3, n3) == swept_from(h, roots.stack, m2, n2),
        extends(m1, m2),
        extends(m2, m3),
        roots.symtbl < h.len() ==> m3.dom().contains(roots.symtbl),
        roots.pc < h.len() ==> m3.dom().contains(roots.pc),
        roots.stack < h.len() ==> m3.dom().contains(roots.stack),
        h2 == rewritten(n3, m3),
        forall|j: usize| j < h2.len() ==> has_source(m3, j),
    ensures
        ({
            let roots2 = Roots {
                stack: forward_root(roots.stack, h.len(), m3),
                pc: forward_root(roots.pc, h.len(), m3),
                symtbl: forward_root(roots.symtbl, h.len(), m3),
            };
            collected(h2, roots2) == (h2, roots2)
        }),
{
    let big = m3;
    let roots2 = Roots {
        stack: forward_root(roots.stack, h.len(), m3),
        pc: forward_root(roots.pc, h.len(), m3),
        symtbl: forward_root(roots.symtbl, h.len(), m3),
    };
    assert(settled(m0, 3, big)) by {
        assert forall|k: usize|
            #![trigger m0.dom().contains(k)]
            #![trigger big.dom().contains(k)]
            m0.dom().contains(k) <==> big.dom().contains(k) && big[k] < 3 by {
            if big.dom().contains(k) && big[k] < 3 {
                let j = big[k];
                assert(big.dom().contains(j) && big[j] == big[k]);
            }
        }
    }
    assert(extends(m1, big)) by {
        assert forall|k: usize| #[trigger] m1.dom().contains(k) implies big.dom().contains(k)
            && big[k] == m1[k] by {
            assert(m2.dom().contains(k));
        }
    }
    lemma_resweep_root(h, h2, big, roots.symtbl, m0, n0);
    lemma_resweep_root(h, h2, big, roots.pc, m1, n1);
    lemma_resweep_root(h, h2, big, roots.stack, m2, n2);
    let again0 = Map::<usize, usize>::empty().insert(0, 0).insert(1, 1).insert(2, 2);
    assert(again0 =~= id_below(3));
    assert(seq![h2[0], h2[1], h2[2]] =~= h2.take(3));
    let len = h2.len();
    assert(n3.len() == len);
    assert(h2.take(len as int) =~= h2);
    assert(rewritten(h2, id_below(len)) =~= h2) by {
        assert forall|j: int| 3 <= j < len implies relocate(h2[j], id_below(len)) == h2[j] by {
            assert(has_source(big, j as usize));
            let k = choose|k: usize| big.dom().contains(k) && #[trigger] big[k] == j as usize;
            if k < 3 {
                assert(big[k] == k);
            }
            assert(h2[big[k] as int] == relocate(h[k as int], big));
            let rib = h[k as int];
            assert forall|c: usize| refers_to(rib, c) implies big.dom().contains(c) by {
                assert(edge(h, k, c));
            }
            if let RibField::Rib(c) = rib.first {
                assert(refers_to(rib, c));
            }
            if let RibField::Rib(c) = rib.middle {
                assert(refers_to(rib, c));
            }
            if let RibField::Rib(c) = rib.last {
                assert(refers_to(rib, c));
            }
        }
    }
}

} // verus!
