//! Lists of pair cells on the heap: the stack, the symbol table, and the
//! walks along them.

use crate::field::{is_rib, make_data_rib, pair_rib, Rib, RibField, PAIR, PROCEDURE};
use crate::heap::RibHeap;
use vstd::prelude::*;

verus! {

/// Whether the cell at `stack` exists and is followed by another cell.
pub open spec fn can_pop(h: Seq<Rib>, stack: usize) -> bool {
    stack < h.len() && h[stack as int].middle is Rib
}

/// The cell that follows the cell at `stack`.
pub open spec fn next_cell(h: Seq<Rib>, stack: usize) -> usize {
    h[stack as int].middle->Rib_0
}

/// The cell reached from `list` by following `middle` `i` times, if every
/// cell on the way exists and is followed by a reference. No cell is looked
/// at when `i` is zero.
pub open spec fn tail_of(h: Seq<Rib>, list: usize, i: nat) -> Option<usize>
    decreases i,
{
    if i == 0 {
        Some(list)
    } else if can_pop(h, list) {
        tail_of(h, next_cell(h, list), (i - 1) as nat)
    } else {
        None
    }
}

/// The first cell, from `s` along `middle`, whose `last` is a reference: a
/// continuation frame. The walk gives up after `fuel` steps, at a cell that
/// is not in the heap, and at a cell that no reference follows.
pub open spec fn cont_from(h: Seq<Rib>, s: usize, fuel: nat) -> Option<usize>
    decreases fuel,
{
    if s >= h.len() {
        None
    } else if h[s as int].last is Rib {
        Some(s)
    } else if fuel == 0 || !(h[s as int].middle is Rib) {
        None
    } else {
        cont_from(h, next_cell(h, s), (fuel - 1) as nat)
    }
}

/// The nearest continuation frame at or below `s`. A walk longer than the
/// heap has come round to a cell it has seen, so the heap's length bounds
/// the search.
pub open spec fn cont_of(h: Seq<Rib>, s: usize) -> Option<usize> {
    cont_from(h, s, h.len())
}

/// The cell that an operand names: a reference names its own target, an
/// integer the stack slot of that depth.
pub open spec fn opnd_cell(h: Seq<Rib>, o: RibField, stack: usize) -> Option<usize> {
    match o {
        RibField::Rib(r) => Some(r),
        RibField::Number(n) => if n < 0 {
            None
        } else {
            tail_of(h, stack, n as nat)
        },
    }
}

/// The symbol at depth `n` of the symbol table: the target of the `first`
/// field of the table's `n`-th cell.
pub open spec fn symbol_at(h: Seq<Rib>, symtbl: usize, n: nat) -> Option<usize> {
    match tail_of(h, symtbl, n) {
        Some(t) => if t < h.len() && h[t as int].first is Rib {
            Some(h[t as int].first->Rib_0)
        } else {
            None
        },
        None => None,
    }
}

/// Pushes `x`: allocates the cell `(x, stack, 0)` and makes it the stack.
pub fn push_stack(x: RibField, stack: &mut usize, holder: &mut RibHeap)
    ensures
        final(holder)@ == old(holder)@.push(pair_rib(x, *old(stack))),
        *final(stack) == old(holder)@.len(),
        final(holder)@.len() <= usize::MAX,
{
    *stack = holder.push_rib(make_data_rib(x, RibField::Rib(*stack), PAIR));
}

/// Whether the stack can be popped: `can_pop`, computed.
pub fn has_next(stack: usize, holder: &RibHeap) -> (b: bool)
    ensures
        b == can_pop(holder@, stack),
{
    stack < holder.len() && is_rib(&holder.get(&stack).middle)
}

/// Pops the stack: yields the `first` of its top cell and moves the stack
/// on to the cell that follows.
pub fn pop_stack(stack: &mut usize, holder: &RibHeap) -> (r: RibField)
    requires
        can_pop(holder@, *old(stack)),
    ensures
        r == holder@[*old(stack) as int].first,
        *final(stack) == next_cell(holder@, *old(stack)),
{
    let top = holder.get(stack);
    *stack = top.middle.get_rib_ref();
    top.first
}

/// Follows `middle` from `list` `i` times; `None` where the walk meets a
/// cell that is not in the heap or that no reference follows.
pub fn find_tail(list: usize, i: u32, holder: &RibHeap) -> (r: Option<usize>)
    ensures
        r == tail_of(holder@, list, i as nat),
{
    let mut cur = list;
    let mut left = i;
    while left > 0
        invariant
            tail_of(holder@, cur, left as nat) == tail_of(holder@, list, i as nat),
        decreases left,
    {
        if !has_next(cur, holder) {
            return None;
        }
        cur = holder.get(&cur).middle.get_rib_ref();
        left -= 1;
    }
    Some(cur)
}

/// The cell reached from `list` by following `middle` `i` times.
pub fn list_tail(list: &usize, i: u32, holder: &RibHeap) -> (r: usize)
    requires
        tail_of(holder@, *list, i as nat) is Some,
    ensures
        Some(r) == tail_of(holder@, *list, i as nat),
    decreases i,
{
    if i == 0 {
        *list
    } else {
        list_tail(&holder.get(list).middle.get_rib_ref(), i - 1, holder)
    }
}

/// The target of the `first` field of the symbol table's `n`-th cell.
pub fn symbol_ref(n: u32, symtbl: &usize, holder: &RibHeap) -> (r: usize)
    requires
        symbol_at(holder@, *symtbl, n as nat) is Some,
    ensures
        Some(r) == symbol_at(holder@, *symtbl, n as nat),
{
    let tail_ref = list_tail(symtbl, n, holder);
    holder.get(&tail_ref).first.get_rib_ref()
}

/// `symbol_ref` for any table: `None` where the table has no such cell or
/// the cell holds no reference.
pub fn find_symbol(n: u32, symtbl: usize, holder: &RibHeap) -> (r: Option<usize>)
    ensures
        r == symbol_at(holder@, symtbl, n as nat),
{
    match find_tail(symtbl, n, holder) {
        Some(t) => {
            if t < holder.len() {
                match holder.get(&t).first {
                    RibField::Rib(s) => Some(s),
                    RibField::Number(_) => None,
                }
            } else {
                None
            }
        },
        None => None,
    }
}

/// The index of the cell that an operand names.
pub fn get_opnd_ref(o: &RibField, stack: &usize, holder: &RibHeap) -> (r: usize)
    requires
        opnd_cell(holder@, *o, *stack) is Some,
    ensures
        Some(r) == opnd_cell(holder@, *o, *stack),
{
    match o {
        RibField::Rib(r) => *r,
        RibField::Number(n) => list_tail(stack, *n as u32, holder),
    }
}

/// The cell that an operand names.
pub fn get_opnd(o: &RibField, stack: &usize, holder: &RibHeap) -> (r: Rib)
    requires
        opnd_cell(holder@, *o, *stack) matches Some(c) && c < holder@.len(),
    ensures
        opnd_cell(holder@, *o, *stack) matches Some(c) && r == holder@[c as int],
{
    let index = get_opnd_ref(o, stack, holder);
    holder.get(&index)
}

/// `get_opnd_ref` for any operand: `None` where the operand names no cell
/// of the heap.
pub fn find_opnd(o: &RibField, stack: usize, holder: &RibHeap) -> (r: Option<usize>)
    ensures
        r == match opnd_cell(holder@, *o, stack) {
            Some(c) => if c < holder@.len() {
                Some(c)
            } else {
                None
            },
            None => None,
        },
{
    let c = match o {
        RibField::Rib(r) => Some(*r),
        RibField::Number(n) => {
            if *n < 0 {
                None
            } else {
                find_tail(stack, *n as u32, holder)
            }
        },
    };
    match c {
        Some(c) => if c < holder.len() {
            Some(c)
        } else {
            None
        },
        None => None,
    }
}

/// The nearest continuation frame at or below `stack`, if there is one.
pub fn find_cont(stack: usize, holder: &RibHeap) -> (r: Option<usize>)
    ensures
        r == cont_of(holder@, stack),
{
    let mut s = stack;
    let mut fuel = holder.len();
    loop
        invariant
            fuel <= holder@.len(),
            cont_from(holder@, s, fuel as nat) == cont_of(holder@, stack),
        decreases fuel,
    {
        if s >= holder.len() {
            return None;
        }
        let cell = holder.get(&s);
        if is_rib(&cell.last) {
            return Some(s);
        }
        if fuel == 0 || !is_rib(&cell.middle) {
            return None;
        }
        s = cell.middle.get_rib_ref();
        fuel -= 1;
    }
}

/// The nearest continuation frame at or below `stack`.
pub fn get_cont(stack: &usize, holder: &RibHeap) -> (r: usize)
    requires
        cont_of(holder@, *stack) is Some,
    ensures
        Some(r) == cont_of(holder@, *stack),
{
    match find_cont(*stack, holder) {
        Some(k) => k,
        None => *stack,
    }
}

/// Whether the head of the symbol table can be bound: the table's first
/// cell holds a symbol and is followed by another cell.
pub open spec fn can_bind(h: Seq<Rib>, symtbl: usize) -> bool {
    &&& can_pop(h, symtbl)
    &&& h[symtbl as int].first matches RibField::Rib(sym)
    &&& sym < h.len()
}

/// Binds the symbol at the head of the symbol table to the rib at
/// `val_ref`, and moves the table on to its next cell.
pub fn set_global(val_ref: usize, symtbl: &mut usize, holder: &mut RibHeap)
    requires
        can_bind(old(holder)@, *old(symtbl)),
    ensures
        ({
            let h = old(holder)@;
            let sym = h[*old(symtbl) as int].first->Rib_0 as int;
            &&& final(holder)@ == h.update(
                sym,
                Rib { first: RibField::Rib(val_ref), middle: h[sym].middle, last: h[sym].last },
            )
            &&& *final(symtbl) == next_cell(h, *old(symtbl))
        }),
{
    let sym_top = holder.get(symtbl);
    let mut top_first = sym_top.first.get_rib(holder);
    top_first.first = RibField::Rib(val_ref);
    holder.set(&sym_top.first.get_rib_ref(), top_first);
    *symtbl = sym_top.middle.get_rib_ref();
}

/// Drops the cell below the top of the stack: pops two values and pushes
/// the first of them again.
pub fn rvm_arg2(stack: &mut usize, holder: &mut RibHeap)
    requires
        can_pop(old(holder)@, *old(stack)),
        can_pop(old(holder)@, next_cell(old(holder)@, *old(stack))),
    ensures
        ({
            let h = old(holder)@;
            let below = next_cell(h, next_cell(h, *old(stack)));
            &&& final(holder)@ == h.push(pair_rib(h[*old(stack) as int].first, below))
            &&& *final(stack) == h.len()
        }),
        final(holder)@.len() <= usize::MAX,
{
    let x = pop_stack(stack, holder);
    pop_stack(stack, holder);
    push_stack(x, stack, holder);
}

/// Whether the top of the stack refers to a rib and the stack can be
/// popped.
pub open spec fn can_close(h: Seq<Rib>, stack: usize) -> bool {
    &&& can_pop(h, stack)
    &&& h[stack as int].first matches RibField::Rib(p)
    &&& p < h.len()
}

/// Replaces the procedure on top of the stack by a closure: a procedure
/// with the same code whose environment is the stack below.
pub fn rvm_close(stack: &mut usize, holder: &mut RibHeap)
    requires
        can_close(old(holder)@, *old(stack)),
    ensures
        ({
            let h = old(holder)@;
            let p = h[*old(stack) as int].first->Rib_0 as int;
            let below = next_cell(h, *old(stack));
            let closure = Rib {
                first: h[p].first,
                middle: RibField::Rib(below),
                last: RibField::Number(PROCEDURE),
            };
            &&& final(holder)@ == h.push(closure).push(
                pair_rib(RibField::Rib(h.len() as usize), below),
            )
            &&& *final(stack) == h.len() + 1
        }),
        final(holder)@.len() <= usize::MAX,
{
    let f = pop_stack(stack, holder).get_rib(holder).first;
    let m = RibField::Rib(*stack);
    let closure = holder.push_rib(make_data_rib(f, m, PROCEDURE));
    push_stack(RibField::Rib(closure), stack, holder);
}

} // verus!
