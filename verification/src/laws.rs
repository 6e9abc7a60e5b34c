//! Laws of the primitives, the stack and the decoder.

use crate::decode::decoded;
use crate::error::VmError;
use crate::field::{fits_i32, magnitude, pair_rib, trunc_div, Rib, RibField};
use crate::heap::{heap_closed, rib_closed};
use crate::prims::{binary, prim1, prim3, unary, Binary, Unary};
use crate::stack::{can_pop, cont_from, cont_of, next_cell};
use vstd::prelude::*;

verus! {

/// Addition does not depend on the order of its arguments.
pub proof fn lemma_add_commutes(x: RibField, y: RibField, h: Seq<Rib>)
    ensures
        binary(Binary::Add, x, y, h) == binary(Binary::Add, y, x, h),
{
}

/// Multiplication does not depend on the order of its arguments.
pub proof fn lemma_mul_commutes(x: RibField, y: RibField, h: Seq<Rib>)
    ensures
        binary(Binary::Mul, x, y, h) == binary(Binary::Mul, y, x, h),
{
    if let (RibField::Number(a), RibField::Number(b)) = (x, y) {
        assert(a * b == b * a) by (nonlinear_arith);
    }
}

/// Adding back what was subtracted gives the first number again: where
/// `a - b` has a value, that value plus `b` is `a`.
pub proof fn lemma_sub_then_add(a: i32, b: i32, h: Seq<Rib>)
    ensures
        binary(Binary::Sub, RibField::Number(a), RibField::Number(b), h) matches Ok((d, h1))
            ==> binary(Binary::Add, d, RibField::Number(b), h1) == Ok::<
            (RibField, Seq<Rib>),
            VmError,
        >((RibField::Number(a), h)),
{
}

/// Dividing a product by one of its factors gives the other: where `a * b`
/// has a value and `b` is not zero, that value divided by `b` is `a`.
pub proof fn lemma_mul_then_div(a: i32, b: i32, h: Seq<Rib>)
    requires
        b != 0,
    ensures
        binary(Binary::Mul, RibField::Number(a), RibField::Number(b), h) matches Ok((p, h1))
            ==> binary(Binary::Div, p, RibField::Number(b), h1) == Ok::<
            (RibField, Seq<Rib>),
            VmError,
        >((RibField::Number(a), h)),
{
    if fits_i32(a * b) {
        let ma = magnitude(a as int);
        let mb = magnitude(b as int);
        assert(magnitude(a * b) == ma * mb) by (nonlinear_arith)
            requires
                ma == magnitude(a as int),
                mb == magnitude(b as int),
        ;
        vstd::arithmetic::div_mod::lemma_div_by_multiple(ma, mb);
        assert((ma * mb) / mb == ma);
        assert(a > 0 ==> (a * b < 0) == (b < 0)) by (nonlinear_arith)
            requires
                b != 0,
        ;
        assert(a < 0 ==> (a * b < 0) != (b < 0)) by (nonlinear_arith)
            requires
                b != 0,
        ;
        assert(a == 0 ==> a * b == 0) by (nonlinear_arith);
        assert(trunc_div((a * b) as int, b as int) == a);
    }
}

/// A field that was set is the field that is read: after a field setter
/// has stored `v` in a field of the rib that `x` refers to, the getter of
/// that field gives `v`.
pub proof fn lemma_set_then_get(x: RibField, v: RibField, h: Seq<Rib>)
    ensures
        binary(Binary::SetField0, x, v, h) matches Ok((r, h1)) ==> r == v && unary(
            Unary::Field0,
            x,
            h1,
        ) == Ok::<RibField, VmError>(v),
        binary(Binary::SetField1, x, v, h) matches Ok((r, h1)) ==> r == v && unary(
            Unary::Field1,
            x,
            h1,
        ) == Ok::<RibField, VmError>(v),
        binary(Binary::SetField2, x, v, h) matches Ok((r, h1)) ==> r == v && unary(
            Unary::Field2,
            x,
            h1,
        ) == Ok::<RibField, VmError>(v),
{
}

/// A rib that was constructed holds the fields it was constructed from:
/// where the stack holds `a`, `b` and `c`, with `c` on top, the rib
/// constructor leaves a reference on top of the stack, and the three field
/// getters, applied to it, give `a`, `b` and `c`.
pub proof fn lemma_rib_round_trip(h: Seq<Rib>, s: usize)
    requires
        h.len() + 2 <= usize::MAX,
        prim3(3, h, s) is Ok,
    ensures
        ({
            let (h1, s1) = prim3(3, h, s)->Ok_0;
            let c = h[s as int].first;
            let b = h[next_cell(h, s) as int].first;
            let a = h[next_cell(h, next_cell(h, s)) as int].first;
            let made = h1[s1 as int].first;
            &&& made is Rib
            &&& unary(Unary::Field0, made, h1) == Ok::<RibField, VmError>(a)
            &&& unary(Unary::Field1, made, h1) == Ok::<RibField, VmError>(b)
            &&& unary(Unary::Field2, made, h1) == Ok::<RibField, VmError>(c)
            &&& prim1(1, Unary::Field0, h1, s1) matches Ok((h2, s2)) && h2[s2 as int].first == a
            &&& prim1(1, Unary::Field1, h1, s1) matches Ok((h2, s2)) && h2[s2 as int].first == b
            &&& prim1(1, Unary::Field2, h1, s1) matches Ok((h2, s2)) && h2[s2 as int].first == c
        }),
{
}

/// Texts of the same bytes decode to the same machine, or fail with the
/// same error.
pub proof fn lemma_decode_deterministic(a: Seq<u8>, b: Seq<u8>)
    requires
        a.len() == b.len(),
        forall|i: int| 0 <= i < a.len() ==> a[i] == b[i],
    ensures
        decoded(a) == decoded(b),
{
    assert(a =~= b);
}

/// A decoded machine starts on the primordial continuation: its stack is
/// the one frame `(0, 0, halt)`, where `halt` is the instruction `(5, 0, 0)`,
/// and that frame is the stack's continuation.
pub proof fn lemma_decoded_stack(code: Seq<u8>)
    requires
        decoded(code) is Ok,
        decoded(code)->Ok_0.heap.len() <= usize::MAX,
    ensures
        ({
            let m = decoded(code)->Ok_0;
            let frame = m.heap[m.stack as int];
            &&& m.stack < m.heap.len()
            &&& frame.first == RibField::Number(0)
            &&& frame.middle == RibField::Number(0)
            &&& frame.last matches RibField::Rib(halt)
            &&& halt < m.heap.len()
            &&& m.heap[halt as int] == Rib {
                first: RibField::Number(crate::field::HALT),
                middle: RibField::Number(0),
                last: RibField::Number(0),
            }
            &&& cont_of(m.heap, m.stack) == Some(m.stack)
        }),
{
}

/// More fuel does not change a continuation frame that was found.
pub proof fn lemma_cont_fuel(h: Seq<Rib>, s: usize, fuel: nat, more: nat)
    requires
        cont_from(h, s, fuel) is Some,
        fuel <= more,
    ensures
        cont_from(h, s, more) == cont_from(h, s, fuel),
    decreases fuel,
{
    if s < h.len() && !(h[s as int].last is Rib) && fuel > 0 && h[s as int].middle is Rib {
        lemma_cont_fuel(h, next_cell(h, s), (fuel - 1) as nat, (more - 1) as nat);
    }
}

/// A rib appended to a heap without dangling references changes no walk
/// along the heap's cells.
pub proof fn lemma_cont_push(h: Seq<Rib>, r: Rib, s: usize, fuel: nat)
    requires
        heap_closed(h),
        s < h.len(),
    ensures
        cont_from(h.push(r), s, fuel) == cont_from(h, s, fuel),
    decreases fuel,
{
    assert(rib_closed(h[s as int], h.len()));
    if !(h[s as int].last is Rib) && fuel > 0 && h[s as int].middle is Rib {
        lemma_cont_push(h, r, next_cell(h, s), (fuel - 1) as nat);
    }
}

/// A push keeps the stack's continuation: the frame that the program
/// returns to is the same above the new cell as it was before.
pub proof fn lemma_push_keeps_cont(h: Seq<Rib>, x: RibField, stack: usize)
    requires
        heap_closed(h),
        stack < h.len() < usize::MAX,
        cont_of(h, stack) is Some,
    ensures
        cont_of(h.push(pair_rib(x, stack)), h.len() as usize) == cont_of(h, stack),
{
    let h1 = h.push(pair_rib(x, stack));
    lemma_cont_push(h, pair_rib(x, stack), stack, h.len());
}

/// A pop keeps the stack's continuation: below a cell that is no
/// continuation frame itself, the frame that the program returns to is the
/// same as above it.
pub proof fn lemma_pop_keeps_cont(h: Seq<Rib>, stack: usize)
    requires
        can_pop(h, stack),
        !(h[stack as int].last is Rib),
        cont_of(h, stack) is Some,
    ensures
        cont_of(h, next_cell(h, stack)) == cont_of(h, stack),
{
    lemma_cont_fuel(h, next_cell(h, stack), (h.len() - 1) as nat, h.len());
}

/// The cell that a walk along `middle` has reached from `s` after `j`
/// steps.
pub open spec fn walk(h: Seq<Rib>, s: usize, j: nat) -> usize
    decreases j,
{
    if j == 0 {
        s
    } else {
        walk(h, next_cell(h, s), (j - 1) as nat)
    }
}

/// Whether a walk passes through a cell: the cell is in the heap, it is no
/// continuation frame, and a reference follows it.
pub open spec fn passing(h: Seq<Rib>, c: usize) -> bool {
    c < h.len() && !(h[c as int].last is Rib) && h[c as int].middle is Rib
}

/// The number of steps after which a search for a continuation frame ends.
pub open spec fn cont_steps(h: Seq<Rib>, s: usize, fuel: nat) -> nat
    decreases fuel,
{
    if fuel > 0 && passing(h, s) {
        1 + cont_steps(h, next_cell(h, s), (fuel - 1) as nat)
    } else {
        0
    }
}

/// A search that finds a frame finds it at the end of a walk through cells
/// that are no frames, and needs no more fuel than the walk is long.
proof fn lemma_cont_walk(h: Seq<Rib>, s: usize, fuel: nat)
    requires
        cont_from(h, s, fuel) is Some,
    ensures
        cont_steps(h, s, fuel) <= fuel,
        Some(walk(h, s, cont_steps(h, s, fuel))) == cont_from(h, s, fuel),
        cont_from(h, s, cont_steps(h, s, fuel)) == cont_from(h, s, fuel),
        forall|i: nat| i < cont_steps(h, s, fuel) ==> passing(h, #[trigger] walk(h, s, i)),
    decreases fuel,
{
    if fuel > 0 && passing(h, s) {
        let next = next_cell(h, s);
        lemma_cont_walk(h, next, (fuel - 1) as nat);
        let j = cont_steps(h, s, fuel);
        assert forall|i: nat| i < j implies passing(h, #[trigger] walk(h, s, i)) by {
            if i > 0 {
                assert(walk(h, s, i) == walk(h, next, (i - 1) as nat));
            }
        }
    }
}

/// A walk of `a + b` steps is a walk of `a` steps and then one of `b`.
proof fn lemma_walk_compose(h: Seq<Rib>, s: usize, a: nat, b: nat)
    ensures
        walk(h, s, a + b) == walk(h, walk(h, s, a), b),
    decreases a,
{
    if a > 0 {
        lemma_walk_compose(h, next_cell(h, s), (a - 1) as nat, b);
    }
}

/// The heap's length is fuel enough: a search that finds a continuation
/// frame with any fuel finds the same frame with the heap's length as
/// fuel. So `cont_of` is `None` only where a walk along the stack never
/// comes to a continuation frame.
pub proof fn lemma_cont_complete(h: Seq<Rib>, s: usize, fuel: nat)
    requires
        h.len() <= usize::MAX,
        cont_from(h, s, fuel) is Some,
    ensures
        cont_of(h, s) == cont_from(h, s, fuel),
{
    lemma_cont_walk(h, s, fuel);
    let j = cont_steps(h, s, fuel);
    let k = walk(h, s, j);
    crate::interp::lemma_cont_in_heap(h, s, fuel);
    let path = Seq::new(j + 1, |i: int| walk(h, s, i as nat));
    assert forall|a: int, b: int| 0 <= a < path.len() && 0 <= b < path.len() && a != b implies path[a]
        != path[b] by {
        if path[a] == path[b] {
            let lo = if a < b {
                a
            } else {
                b
            };
            let hi = if a < b {
                b
            } else {
                a
            };
            lemma_walk_compose(h, s, lo as nat, (j - hi) as nat);
            lemma_walk_compose(h, s, hi as nat, (j - hi) as nat);
            assert(walk(h, s, (lo + (j - hi)) as nat) == k);
            assert(passing(h, walk(h, s, (lo + (j - hi)) as nat)));
        }
    }
    assert(path.no_duplicates());
    path.unique_seq_to_set();
    crate::gc::lemma_below_len(h.len() as usize);
    assert(path.to_set().subset_of(crate::gc::below(h.len()))) by {
        assert forall|c: usize| path.to_set().contains(c) implies c < h.len() by {
            let i = choose|i: int| 0 <= i < path.len() && path[i] == c;
            if i < j {
                assert(passing(h, walk(h, s, i as nat)));
            }
        }
    }
    vstd::set_lib::lemma_len_subset(path.to_set(), crate::gc::below(h.len()));
    lemma_cont_fuel(h, s, j, h.len());
}

} // verus!
