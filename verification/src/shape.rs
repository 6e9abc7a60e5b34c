//! The shape of the heap while a program is decoded: the singletons, the
//! symbol table and the build stack, and what keeps them apart.

use crate::field::{special_rib, Rib, RibField, NIL_REF, PAIR, SYMBOL};
use crate::stack::next_cell;
use vstd::prelude::*;

verus! {

/// Whether the three singletons are the ribs they start out as.
pub open spec fn singletons(h: Seq<Rib>) -> bool {
    h.len() >= 3 && h[0] == special_rib() && h[1] == special_rib() && h[2] == special_rib()
}

/// Whether the list at `t` is a symbol table of at most `depth` cells: it
/// is empty, or its first cell is a pair above the singletons and below
/// `lim` that holds a symbol above the singletons and below `lim`, and
/// the rest is a symbol table.
pub open spec fn table_ok(h: Seq<Rib>, t: usize, lim: nat, depth: nat) -> bool
    decreases depth,
{
    t == NIL_REF || {
        &&& depth > 0
        &&& 3 <= t < lim <= h.len()
        &&& h[t as int].last == RibField::Number(PAIR)
        &&& h[t as int].first matches RibField::Rib(sym)
        &&& 3 <= sym < lim
        &&& h[sym as int].last == RibField::Number(SYMBOL)
        &&& h[t as int].middle matches RibField::Rib(rest)
        &&& table_ok(h, rest, lim, (depth - 1) as nat)
    }
}

/// Whether the list at `t` is a symbol table, of whatever length.
pub open spec fn is_table(h: Seq<Rib>, t: usize, lim: nat) -> bool {
    exists|depth: nat| table_ok(h, t, lim, depth)
}

/// Whether `stack` is a build stack of `depth` cells above its bottom
/// `base`: every cell lies at or above `base`, a reference to the next
/// cell follows each cell but the bottom, and no reference follows the
/// bottom.
pub open spec fn build_ok(h: Seq<Rib>, stack: usize, base: usize, depth: nat) -> bool
    decreases depth,
{
    &&& base <= stack < h.len()
    &&& if stack == base {
        !(h[stack as int].middle is Rib)
    } else {
        &&& depth > 0
        &&& h[stack as int].middle is Rib
        &&& build_ok(h, next_cell(h, stack), base, (depth - 1) as nat)
    }
}

/// Whether `stack` is a build stack above `base`, of whatever depth.
pub open spec fn is_build(h: Seq<Rib>, stack: usize, base: usize) -> bool {
    exists|depth: nat| build_ok(h, stack, base, depth)
}

/// The shape of the heap while the symbols are made: the singletons are
/// untouched and `symtbl` is a symbol table.
pub open spec fn naming(h: Seq<Rib>, symtbl: usize) -> bool {
    singletons(h) && is_table(h, symtbl, h.len())
}

/// The shape of the heap while the instructions are decoded: the
/// singletons and the symbol table lie below `base`, untouched, and the
/// build stack lies at and above it.
pub open spec fn building(h: Seq<Rib>, stack: usize, symtbl: usize, base: usize) -> bool {
    3 <= base && singletons(h) && is_table(h, symtbl, base as nat) && is_build(h, stack, base)
}

/// The shape stays when whatever lies at or above `base` is replaced by
/// ribs with the same `middle`, ribs are appended, and the build stack is
/// left where it is.
pub proof fn lemma_building_frame(
    h: Seq<Rib>,
    h2: Seq<Rib>,
    stack: usize,
    symtbl: usize,
    base: usize,
)
    requires
        building(h, stack, symtbl, base),
        h.len() <= h2.len(),
        forall|i: int| 0 <= i < base ==> h2[i] == h[i],
        forall|i: int| base <= i < h.len() ==> h2[i].middle == h[i].middle,
    ensures
        building(h2, stack, symtbl, base),
{
    let d1 = choose|d: nat| table_ok(h, symtbl, base as nat, d);
    lemma_table_frame(h, h2, symtbl, base as nat, base as nat, d1);
    let d2 = choose|d: nat| build_ok(h, stack, base, d);
    lemma_build_frame(h, h2, stack, base, d2);
}

/// The shape stays when a cell is pushed on the build stack.
pub proof fn lemma_building_push(h: Seq<Rib>, r: Rib, stack: usize, symtbl: usize, base: usize)
    requires
        building(h, stack, symtbl, base),
        r.middle == RibField::Rib(stack),
        h.len() <= usize::MAX,
    ensures
        building(h.push(r), h.len() as usize, symtbl, base),
{
    let h2 = h.push(r);
    lemma_building_frame(h, h2, stack, symtbl, base);
    let d = choose|d: nat| build_ok(h2, stack, base, d);
    assert(build_ok(h2, h.len() as usize, base, d + 1));
}

/// The shape stays when the build stack is popped.
pub proof fn lemma_building_pop(h: Seq<Rib>, stack: usize, symtbl: usize, base: usize)
    requires
        building(h, stack, symtbl, base),
        h[stack as int].middle is Rib,
    ensures
        building(h, next_cell(h, stack), symtbl, base),
{
    let d = choose|d: nat| build_ok(h, stack, base, d);
    assert(build_ok(h, next_cell(h, stack), base, (d - 1) as nat));
}

/// A symbol table stays one when a rib is appended, a rib at or above the
/// limit is replaced, or the limit grows.
pub proof fn lemma_table_frame(h: Seq<Rib>, h2: Seq<Rib>, t: usize, lim: nat, lim2: nat, depth: nat)
    requires
        table_ok(h, t, lim, depth),
        lim <= lim2 <= h2.len(),
        h.len() <= h2.len(),
        forall|i: int| 0 <= i < lim ==> h2[i] == h[i],
    ensures
        table_ok(h2, t, lim2, depth),
    decreases depth,
{
    if t != NIL_REF {
        let rest = h[t as int].middle->Rib_0;
        lemma_table_frame(h, h2, rest, lim, lim2, (depth - 1) as nat);
    }
}

/// A symbol table stays one when the value of a symbol is replaced.
pub proof fn lemma_table_bind(h: Seq<Rib>, sym: int, r: Rib, t: usize, lim: nat, depth: nat)
    requires
        table_ok(h, t, lim, depth),
        0 <= sym < h.len(),
        h[sym].last == RibField::Number(SYMBOL),
        r.last == h[sym].last,
    ensures
        table_ok(h.update(sym, r), t, lim, depth),
    decreases depth,
{
    if t != NIL_REF {
        let rest = h[t as int].middle->Rib_0;
        lemma_table_bind(h, sym, r, rest, lim, (depth - 1) as nat);
    }
}

/// A build stack stays one when ribs are appended and cells are replaced by
/// cells with the same `middle`.
pub proof fn lemma_build_frame(h: Seq<Rib>, h2: Seq<Rib>, stack: usize, base: usize, depth: nat)
    requires
        build_ok(h, stack, base, depth),
        h.len() <= h2.len(),
        forall|i: int| base <= i < h.len() ==> h2[i].middle == h[i].middle,
    ensures
        build_ok(h2, stack, base, depth),
    decreases depth,
{
    if stack != base {
        lemma_build_frame(h, h2, next_cell(h, stack), base, (depth - 1) as nat);
    }
}

} // verus!
