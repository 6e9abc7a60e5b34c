//! The decoder: from the program text to a symbol table and an instruction
//! graph on the heap.

use crate::error::VmError;
use crate::field::{
    is_rib, make_data_rib, make_op_rib, make_rib, pair_rib, special_rib, Rib, RibField, CALL, CNST,
    FALSE_REF, HALT, NIL_REF, PAIR, PROCEDURE, STRING, SYMBOL, TRUE_REF,
};
use crate::heap::{lemma_push_closed, lemma_update_closed, rib_closed, RibHeap};
use crate::machine::{Machine, MachineView};
use crate::reader::{code_of, get_byte, get_code, int_at, lemma_int_at_nonnegative, read_int};
use crate::shape::{
    building, is_table, lemma_building_frame, lemma_building_pop, lemma_building_push,
    lemma_table_bind, lemma_table_frame, naming, singletons, table_ok,
};
use crate::stack::{
    can_bind, can_pop, find_symbol, has_next, next_cell, pop_stack, push_stack, set_global,
    symbol_at, tail_of,
};
use vstd::prelude::*;

verus! {

/// The heap with one more symbol in front of the symbol table: a string of
/// `n` characters whose list is at `chars`, the symbol of that name with the
/// value `#f`, and the table's new first cell.
pub open spec fn with_symbol(h: Seq<Rib>, symtbl: usize, chars: usize, n: i32) -> Seq<Rib> {
    h.push(
        Rib { first: RibField::Rib(chars), middle: RibField::Number(n), last: RibField::Number(STRING) },
    ).push(
        Rib {
            first: RibField::Rib(FALSE_REF),
            middle: RibField::Rib(h.len() as usize),
            last: RibField::Number(SYMBOL),
        },
    ).push(
        Rib {
            first: RibField::Rib((h.len() + 1) as usize),
            middle: RibField::Rib(symtbl),
            last: RibField::Number(PAIR),
        },
    )
}

/// The heap and the symbol table with `n` more symbols of the empty name.
pub open spec fn with_anonymous(h: Seq<Rib>, symtbl: usize, n: nat) -> (Seq<Rib>, usize)
    decreases n,
{
    if n == 0 {
        (h, symtbl)
    } else {
        with_anonymous(
            with_symbol(h, symtbl, NIL_REF, 0),
            (h.len() + 2) as usize,
            (n - 1) as nat,
        )
    }
}

/// The heap, the position and the symbol table after the names that stand
/// at `pos`: a comma ends a name, a semicolon ends the last one, and any
/// other character goes in front of the list `accum` of the `n` characters
/// read of the current name.
pub open spec fn with_names(
    h: Seq<Rib>,
    s: Seq<u8>,
    pos: int,
    symtbl: usize,
    accum: usize,
    n: int,
) -> Result<(Seq<Rib>, int, usize), VmError>
    decreases s.len() - pos,
{
    if pos < 0 || pos >= s.len() {
        Err(VmError::UnexpectedEnd)
    } else if s[pos] == 44 {
        with_names(
            with_symbol(h, symtbl, accum, n as i32),
            s,
            pos + 1,
            (h.len() + 2) as usize,
            NIL_REF,
            0,
        )
    } else if s[pos] == 59 {
        Ok((with_symbol(h, symtbl, accum, n as i32), pos + 1, (h.len() + 2) as usize))
    } else if n >= i32::MAX {
        Err(VmError::Overflow)
    } else {
        with_names(
            h.push(pair_rib(RibField::Number(s[pos] as i32), accum)),
            s,
            pos + 1,
            symtbl,
            h.len() as usize,
            n + 1,
        )
    }
}

/// The width of the short operand range of each of the six instruction
/// forms of the text, in the order of their codes.
pub open spec fn op_width(op: int) -> int {
    if op == 0 {
        20
    } else if op == 1 {
        30
    } else if op == 2 {
        0
    } else if op == 3 {
        10
    } else if op == 4 {
        11
    } else {
        4
    }
}

/// Splits a code into the form it belongs to and its place within that
/// form: each form takes its width and three more codes, and `op` counts
/// the forms passed. A code beyond the last form gives 6.
pub open spec fn split_code(n: int, op: int) -> (int, int)
    decreases 6 - op,
{
    if op > 5 || n <= op_width(op) + 2 {
        (op, n)
    } else {
        split_code(n - (op_width(op) + 3), op + 1)
    }
}

/// The operand of an instruction of form `op` whose place in the form is
/// `n`, with `d` the form's width, and the position behind it. At `d` an
/// integer follows in the text and is the operand; above `d` an integer
/// follows that numbers a symbol; below `d` the place itself numbers a
/// symbol for the forms below 3 and is the operand for the others.
pub open spec fn operand_at(
    h: Seq<Rib>,
    s: Seq<u8>,
    pos: int,
    symtbl: usize,
    op: int,
    n: int,
    d: int,
) -> Result<(RibField, int), VmError> {
    if n == d {
        match int_at(s, pos, 0) {
            Ok((v, p)) => Ok((RibField::Number(v as i32), p)),
            Err(e) => Err(e),
        }
    } else if n > d {
        match int_at(s, pos, n - d - 1) {
            Ok((v, p)) => match symbol_at(h, symtbl, v as nat) {
                Some(sym) => Ok((RibField::Rib(sym), p)),
                None => Err(VmError::Type),
            },
            Err(e) => Err(e),
        }
    } else if op < 3 {
        match symbol_at(h, symtbl, n as nat) {
            Some(sym) => Ok((RibField::Rib(sym), pos)),
            None => Err(VmError::Type),
        }
    } else {
        Ok((RibField::Number(n as i32), pos))
    }
}

/// What one instruction of the text leaves behind.
pub enum Built {
    /// The instruction was put in front of the sequence on top of the build
    /// stack; more follow.
    More { heap: Seq<Rib>, pos: int, stack: usize },
    /// The instruction closed the outermost procedure, which is at `entry`.
    Done { heap: Seq<Rib>, entry: usize },
}

/// Puts the instruction `(opcode, operand, next)` in front of the sequence
/// on top of the build stack, where `next` is that sequence.
pub open spec fn linked(
    h: Seq<Rib>,
    pos: int,
    stack: usize,
    opcode: int,
    operand: RibField,
) -> Built {
    let top = h[stack as int];
    let instr = Rib { first: RibField::Number(opcode as i32), middle: operand, last: top.first };
    Built::More {
        heap: h.push(instr).update(
            stack as int,
            Rib { first: RibField::Rib(h.len() as usize), middle: top.middle, last: top.last },
        ),
        pos,
        stack,
    }
}

/// Decodes the instruction at `pos`. A code above 90 is a conditional: its
/// operand is the sequence popped off the build stack. The first form is a
/// jump: it starts a new sequence on the build stack, whose end is the
/// integer 0, and goes on as the second form, a call. The last form closes
/// a procedure: the sequence popped off the build stack becomes the body of
/// a procedure whose parameter count is the operand; where nothing is left
/// on the build stack that procedure is the program, and elsewhere it is
/// the operand of a constant instruction.
pub open spec fn instr_step(
    h: Seq<Rib>,
    s: Seq<u8>,
    pos: int,
    stack: usize,
    symtbl: usize,
) -> Result<Built, VmError> {
    if pos < 0 || pos >= s.len() {
        Err(VmError::UnexpectedEnd)
    } else {
        let x = code_of(s[pos]);
        let (op, n) = split_code(x, 0);
        let d = op_width(op);
        if op > 5 {
            Err(VmError::UnknownOpcode(op as i32))
        } else if x > 90 {
            if !can_pop(h, stack) {
                Err(VmError::Type)
            } else {
                Ok(linked(h, pos + 1, next_cell(h, stack), op - 1, h[stack as int].first))
            }
        } else {
            let h1 = if op == 0 {
                h.push(pair_rib(RibField::Number(0), stack))
            } else {
                h
            };
            let stack1 = if op == 0 {
                h.len() as usize
            } else {
                stack
            };
            let op1 = if op == 0 {
                1
            } else {
                op
            };
            match operand_at(h1, s, pos + 1, symtbl, op1, n, d) {
                Err(e) => Err(e),
                Ok((operand, p)) => if op1 > 4 {
                    if !can_pop(h1, stack1) {
                        Err(VmError::Type)
                    } else {
                        let body = h1[stack1 as int].first;
                        let stack2 = next_cell(h1, stack1);
                        let h2 = h1.push(
                            Rib { first: operand, middle: RibField::Number(0), last: body },
                        ).push(
                            Rib {
                                first: RibField::Rib(h1.len() as usize),
                                middle: RibField::Rib(NIL_REF),
                                last: RibField::Number(PROCEDURE),
                            },
                        );
                        let entry = (h1.len() + 1) as usize;
                        if !(h2[stack2 as int].middle is Rib) {
                            Ok(Built::Done { heap: h2, entry })
                        } else {
                            Ok(linked(h2, p, stack2, CNST as int, RibField::Rib(entry)))
                        }
                    }
                } else {
                    Ok(linked(h1, p, stack1, op1 - 1, operand))
                },
            }
        }
    }
}

/// Decodes instructions from `pos` until one closes the program. Gives the
/// heap and the index of the program's procedure.
pub open spec fn instrs(
    h: Seq<Rib>,
    s: Seq<u8>,
    pos: int,
    stack: usize,
    symtbl: usize,
) -> Result<(Seq<Rib>, usize), VmError>
    decreases s.len() - pos,
{
    match instr_step(h, s, pos, stack, symtbl) {
        Err(e) => Err(e),
        Ok(Built::Done { heap, entry }) => Ok((heap, entry)),
        Ok(Built::More { heap, pos: p, stack: st }) => if pos < p <= s.len() {
            instrs(heap, s, p, st, symtbl)
        } else {
            Err(VmError::UnexpectedEnd)
        },
    }
}

/// Binds the symbol at the head of the table to the rib at `val`; gives
/// the heap and the rest of the table.
pub open spec fn bound(h: Seq<Rib>, symtbl: usize, val: usize) -> Result<(Seq<Rib>, usize), VmError> {
    if can_bind(h, symtbl) {
        let sym = h[symtbl as int].first->Rib_0 as int;
        Ok(
            (
                h.update(
                    sym,
                    Rib { first: RibField::Rib(val), middle: h[sym].middle, last: h[sym].last },
                ),
                next_cell(h, symtbl),
            ),
        )
    } else {
        Err(VmError::Type)
    }
}

/// The machine that is ready to run the program at `entry`: the program
/// counter is the first instruction of the procedure's body; the first four
/// symbols of the table are bound to the rib constructor (the procedure of
/// primitive 0), `#f`, `#t` and `()`; and the stack is the primordial
/// continuation `(0, 0, halt)`.
pub open spec fn finished(h: Seq<Rib>, entry: usize, symtbl: usize) -> Result<MachineView, VmError> {
    let code = h[entry as int].first->Rib_0;
    let pc = h[code as int].last;
    let h1 = h.push(
        Rib {
            first: RibField::Number(0),
            middle: RibField::Rib(symtbl),
            last: RibField::Number(PROCEDURE),
        },
    );
    match bound(h1, symtbl, h.len() as usize) {
        Err(e) => Err(e),
        Ok((h2, table)) => match bound(h2, table, FALSE_REF) {
            Err(e) => Err(e),
            Ok((h3, t3)) => match bound(h3, t3, TRUE_REF) {
                Err(e) => Err(e),
                Ok((h4, t4)) => match bound(h4, t4, NIL_REF) {
                    Err(e) => Err(e),
                    Ok((h5, t5)) => {
                        let h6 = h5.push(
                            Rib {
                                first: RibField::Number(HALT),
                                middle: RibField::Number(0),
                                last: RibField::Number(0),
                            },
                        ).push(
                            Rib {
                                first: RibField::Number(CALL),
                                middle: RibField::Number(0),
                                last: RibField::Rib(h5.len() as usize),
                            },
                        );
                        Ok(
                            MachineView {
                                heap: h6,
                                stack: (h5.len() + 1) as usize,
                                pc,
                                symtbl: t5,
                                live: h6.len() as usize,
                            },
                        )
                    },
                },
            },
        },
    }
}

/// The machine that a program text decodes to: the three singletons; the
/// symbols of the empty name that the leading integer counts; the named
/// symbols; the instruction graph, built on a stack that starts as a cell
/// of three integers; and the finishing of `finished`.
pub open spec fn decoded(s: Seq<u8>) -> Result<MachineView, VmError> {
    let h0 = seq![special_rib(), special_rib(), special_rib()];
    match int_at(s, 0, 0) {
        Err(e) => Err(e),
        Ok((n, p)) => {
            let (h1, t1) = with_anonymous(h0, NIL_REF, n as nat);
            match with_names(h1, s, p, t1, NIL_REF, 0) {
                Err(e) => Err(e),
                Ok((h2, behind, table)) => {
                    let h3 = h2.push(
                        Rib {
                            first: RibField::Number(6),
                            middle: RibField::Number(6),
                            last: RibField::Number(6),
                        },
                    );
                    match instrs(h3, s, behind, h2.len() as usize, table) {
                        Err(e) => Err(e),
                        Ok((h4, entry)) => finished(h4, entry, table),
                    }
                },
            }
        },
    }
}

/// Puts one more symbol in front of the symbol table.
fn add_symbol(heap: &mut RibHeap, symtbl: &mut usize, chars: usize, n: i32)
    requires
        old(heap).wf(),
        chars < old(heap)@.len(),
        *old(symtbl) < old(heap)@.len(),
        naming(old(heap)@, *old(symtbl)),
    ensures
        final(heap)@ == with_symbol(old(heap)@, *old(symtbl), chars, n),
        *final(symtbl) == old(heap)@.len() + 2,
        final(heap).wf(),
        naming(final(heap)@, *final(symtbl)),
{
    let ghost h = heap@;
    let ghost table = *symtbl;
    let name = make_data_rib(RibField::Rib(chars), RibField::Number(n), STRING);
    let inner = heap.push_rib(name);
    let symbol = make_data_rib(RibField::Rib(FALSE_REF), RibField::Rib(inner), SYMBOL);
    let outer = heap.push_rib(symbol);
    let cell = make_data_rib(RibField::Rib(outer), RibField::Rib(*symtbl), PAIR);
    *symtbl = heap.push_rib(cell);
    proof {
        lemma_push_closed(h, name);
        lemma_push_closed(h.push(name), symbol);
        lemma_push_closed(h.push(name).push(symbol), cell);
        let d = choose|d: nat| table_ok(h, table, h.len(), d);
        lemma_table_frame(h, heap@, table, h.len(), heap@.len(), d);
        assert(table_ok(heap@, *symtbl, heap@.len(), d + 1));
    }
}

/// The width of the short operand range of an instruction form.
fn width(op: i32) -> (d: i32)
    ensures
        d == op_width(op as int),
{
    if op == 0 {
        20
    } else if op == 1 {
        30
    } else if op == 2 {
        0
    } else if op == 3 {
        10
    } else if op == 4 {
        11
    } else {
        4
    }
}

/// Splits a code into its form and its place within the form.
fn split(x: i32) -> (r: (i32, i32))
    requires
        0 <= x <= 220,
    ensures
        (r.0 as int, r.1 as int) == split_code(x as int, 0),
        0 <= r.0 <= 6,
        0 <= r.1 <= x,
{
    let mut n = x;
    let mut op: i32 = 0;
    while op <= 5 && n > width(op) + 2
        invariant
            0 <= op <= 6,
            0 <= n <= x,
            split_code(n as int, op as int) == split_code(x as int, 0),
        decreases 6 - op,
    {
        n -= width(op) + 3;
        op += 1;
    }
    (op, n)
}

/// Reads the operand of an instruction.
fn read_operand(
    code: &[u8],
    pos: &mut usize,
    symtbl: usize,
    heap: &RibHeap,
    op: i32,
    n: i32,
    d: i32,
) -> (r: Result<RibField, VmError>)
    requires
        heap.wf(),
        0 <= n,
        0 <= d <= 30,
        *old(pos) <= code@.len(),
    ensures
        match operand_at(heap@, code@, *old(pos) as int, symtbl, op as int, n as int, d as int) {
            Ok((f, p)) => r == Ok::<RibField, VmError>(f) && *final(pos) == p && *old(pos) <= p
                <= code@.len() && crate::heap::field_closed(f, heap@.len()),
            Err(e) => r == Err::<RibField, VmError>(e),
        },
{
    if n == d {
        proof {
            if int_at(code@, *pos as int, 0) is Ok {
                lemma_int_at_nonnegative(code@, *pos as int, 0);
            }
        }
        match read_int(0, code, pos) {
            Ok(v) => Ok(RibField::Number(v)),
            Err(e) => Err(e),
        }
    } else if n > d {
        proof {
            if int_at(code@, *pos as int, (n - d - 1) as int) is Ok {
                lemma_int_at_nonnegative(code@, *pos as int, (n - d - 1) as int);
            }
        }
        match read_int(n - d - 1, code, pos) {
            Ok(v) => symbol_operand(v, symtbl, heap),
            Err(e) => Err(e),
        }
    } else if op < 3 {
        symbol_operand(n, symtbl, heap)
    } else {
        Ok(RibField::Number(n))
    }
}

/// The reference to the symbol of a number.
fn symbol_operand(v: i32, symtbl: usize, heap: &RibHeap) -> (r: Result<RibField, VmError>)
    requires
        heap.wf(),
        0 <= v,
    ensures
        r == match symbol_at(heap@, symtbl, v as nat) {
            Some(sym) => Ok::<RibField, VmError>(RibField::Rib(sym)),
            None => Err::<RibField, VmError>(VmError::Type),
        },
        r matches Ok(f) ==> crate::heap::field_closed(f, heap@.len()),
{
    match find_symbol(v as u32, symtbl, heap) {
        Some(sym) => {
            proof {
                let t = tail_of(heap@, symtbl, v as nat)->0;
                assert(rib_closed(heap@[t as int], heap@.len()));
            }
            Ok(RibField::Rib(sym))
        },
        None => Err(VmError::Type),
    }
}

/// Puts an instruction in front of the sequence on top of the build stack.
fn link(heap: &mut RibHeap, stack: usize, opcode: i32, operand: RibField)
    requires
        old(heap).wf(),
        stack < old(heap)@.len(),
        crate::heap::field_closed(operand, old(heap)@.len()),
    ensures
        final(heap)@ == linked(old(heap)@, 0, stack, opcode as int, operand)->More_heap,
        final(heap).wf(),
{
    let ghost h = heap@;
    let top = heap.get(&stack);
    let instr = make_op_rib(opcode, operand, top.first);
    let new_rib_ref = heap.push_rib(instr);
    let new_top = Rib { first: RibField::Rib(new_rib_ref), middle: top.middle, last: top.last };
    heap.set(&stack, new_top);
    proof {
        assert(rib_closed(h[stack as int], h.len()));
        lemma_push_closed(h, instr);
        lemma_update_closed(h.push(instr), stack as int, new_top);
    }
}

/// Decodes one instruction of the text onto the build stack. Returns the
/// index of the program's procedure when the instruction closed it.
fn decode_instruction(
    code: &[u8],
    pos: &mut usize,
    stack: &mut usize,
    symtbl: usize,
    heap: &mut RibHeap,
    Ghost(base): Ghost<usize>,
) -> (r: Result<Option<usize>, VmError>)
    requires
        old(heap).wf(),
        *old(stack) < old(heap)@.len(),
        *old(pos) <= code@.len(),
        building(old(heap)@, *old(stack), symtbl, base),
    ensures
        r is Ok ==> singletons(final(heap)@) && is_table(final(heap)@, symtbl, base as nat),
        r == Ok::<Option<usize>, VmError>(None) ==> building(
            final(heap)@,
            *final(stack),
            symtbl,
            base,
        ),
        match instr_step(old(heap)@, code@, *old(pos) as int, *old(stack), symtbl) {
            Ok(Built::More { heap: h, pos: p, stack: st }) => {
                &&& r == Ok::<Option<usize>, VmError>(None)
                &&& final(heap)@ == h
                &&& *final(pos) == p
                &&& *final(stack) == st
                &&& *old(pos) < p <= code@.len()
                &&& final(heap).wf()
                &&& st < h.len()
                &&& old(heap)@.len() <= h.len()
            },
            Ok(Built::Done { heap: h, entry }) => {
                &&& r == Ok::<Option<usize>, VmError>(Some(entry))
                &&& final(heap)@ == h
                &&& final(heap).wf()
                &&& old(heap)@.len() <= h.len()
                &&& entry < h.len()
                &&& h[entry as int].first matches RibField::Rib(c)
                &&& c < h.len()
            },
            Err(e) => r == Err::<Option<usize>, VmError>(e),
        },
{
    if *pos >= code.len() {
        return Err(VmError::UnexpectedEnd);
    }
    let ghost h = heap@;
    let x = get_code(code, pos);
    let (op, n) = split(x);
    let d = width(op);
    if op > 5 {
        return Err(VmError::UnknownOpcode(op));
    }
    if x > 90 {
        if !has_next(*stack, heap) {
            return Err(VmError::Type);
        }
        assert(rib_closed(h[*stack as int], h.len()));
        proof {
            lemma_building_pop(h, *stack, symtbl, base);
        }
        let operand = pop_stack(stack, heap);
        link(heap, *stack, op - 1, operand);
        proof {
            lemma_building_frame(h, heap@, *stack, symtbl, base);
        }
        Ok(None)
    } else {
        let mut op = op;
        if op == 0 {
            proof {
                lemma_push_closed(h, pair_rib(RibField::Number(0), *stack));
                lemma_building_push(h, pair_rib(RibField::Number(0), *stack), *stack, symtbl, base);
            }
            push_stack(RibField::Number(0), stack, heap);
            op = 1;
        }
        let ghost h1 = heap@;
        let operand = match read_operand(code, pos, symtbl, heap, op, n, d) {
            Ok(f) => f,
            Err(e) => {
                return Err(e);
            },
        };
        if op > 4 {
            if !has_next(*stack, heap) {
                return Err(VmError::Type);
            }
            assert(rib_closed(h1[*stack as int], h1.len()));
            proof {
                lemma_building_pop(h1, *stack, symtbl, base);
            }
            let popped = pop_stack(stack, heap);
            let body = make_rib(operand, RibField::Number(0), popped);
            let inner = heap.push_rib(body);
            let procedure = make_data_rib(RibField::Rib(inner), RibField::Rib(NIL_REF), PROCEDURE);
            let entry = heap.push_rib(procedure);
            proof {
                lemma_push_closed(h1, body);
                lemma_push_closed(h1.push(body), procedure);
                lemma_building_frame(h1, heap@, *stack, symtbl, base);
            }
            if !is_rib(&heap.get(stack).middle) {
                return Ok(Some(entry));
            }
            let ghost h2 = heap@;
            link(heap, *stack, CNST, RibField::Rib(entry));
            proof {
                lemma_building_frame(h2, heap@, *stack, symtbl, base);
            }
            Ok(None)
        } else {
            link(heap, *stack, op - 1, operand);
            proof {
                lemma_building_frame(h1, heap@, *stack, symtbl, base);
            }
            Ok(None)
        }
    }
}

/// Binds the symbol at the head of the table, where the table has one.
fn bind(val_ref: usize, symtbl: &mut usize, heap: &mut RibHeap) -> (r: Result<(), VmError>)
    requires
        old(heap).wf(),
        val_ref < old(heap)@.len(),
        naming(old(heap)@, *old(symtbl)),
    ensures
        match bound(old(heap)@, *old(symtbl), val_ref) {
            Ok((h, t)) => r is Ok && final(heap)@ == h && *final(symtbl) == t && final(heap).wf()
                && t < h.len(),
            Err(e) => r == Err::<(), VmError>(e),
        },
        r is Ok ==> naming(final(heap)@, *final(symtbl)),
{
    if !has_next(*symtbl, heap) {
        return Err(VmError::Type);
    }
    let ghost depth = choose|d: nat| table_ok(heap@, *symtbl, heap@.len(), d);
    assert(*symtbl != NIL_REF);
    let ghost h = heap@;
    let sym = match heap.get(symtbl).first {
        RibField::Rib(sym) => sym,
        RibField::Number(_) => {
            return Err(VmError::Type);
        },
    };
    if sym >= heap.len() {
        return Err(VmError::Type);
    }
    proof {
        assert(rib_closed(h[*symtbl as int], h.len()));
        assert(rib_closed(h[sym as int], h.len()));
        let bound_rib = Rib {
            first: RibField::Rib(val_ref),
            middle: h[sym as int].middle,
            last: h[sym as int].last,
        };
        lemma_update_closed(h, sym as int, bound_rib);
        let rest = next_cell(h, *symtbl);
        lemma_table_bind(h, sym as int, bound_rib, rest, h.len(), (depth - 1) as nat);
    }
    set_global(val_ref, symtbl, heap);
    Ok(())
}

/// Makes the machine that is ready to run the program at `entry`.
fn finish(heap: RibHeap, entry: usize, symtbl: usize) -> (r: Result<Machine, VmError>)
    requires
        heap.wf(),
        symtbl < heap@.len(),
        entry < heap@.len(),
        heap@[entry as int].first matches RibField::Rib(c) && c < heap@.len(),
        naming(heap@, symtbl),
    ensures
        match finished(heap@, entry, symtbl) {
            Ok(v) => r is Ok && r->Ok_0@ == v && v.wf() && naming(v.heap, v.symtbl),
            Err(e) => r is Err && r->Err_0 == e,
        },
{
    let mut heap = heap;
    let mut symtbl = symtbl;
    let ghost h = heap@;
    let code = heap.get(&entry).first;
    let pc = code.get_rib(&heap).last;
    assert(rib_closed(h[code->Rib_0 as int], h.len()));
    let constructor = make_data_rib(RibField::Number(0), RibField::Rib(symtbl), PROCEDURE);
    proof {
        lemma_push_closed(h, constructor);
        let d = choose|d: nat| table_ok(h, symtbl, h.len(), d);
        lemma_table_frame(h, h.push(constructor), symtbl, h.len(), h.len() + 1, d);
    }
    let val = heap.push_rib(constructor);
    match bind(val, &mut symtbl, &mut heap) {
        Ok(()) => {},
        Err(e) => {
            return Err(e);
        },
    }
    match bind(FALSE_REF, &mut symtbl, &mut heap) {
        Ok(()) => {},
        Err(e) => {
            return Err(e);
        },
    }
    match bind(TRUE_REF, &mut symtbl, &mut heap) {
        Ok(()) => {},
        Err(e) => {
            return Err(e);
        },
    }
    match bind(NIL_REF, &mut symtbl, &mut heap) {
        Ok(()) => {},
        Err(e) => {
            return Err(e);
        },
    }
    let ghost h5 = heap@;
    let halt = make_op_rib(HALT, RibField::Number(0), RibField::Number(0));
    let halt_instr = heap.push_rib(halt);
    let primordial_cont = make_op_rib(CALL, RibField::Number(0), RibField::Rib(halt_instr));
    let stack = heap.push_rib(primordial_cont);
    proof {
        lemma_push_closed(h5, halt);
        lemma_push_closed(h5.push(halt), primordial_cont);
        let d = choose|d: nat| table_ok(h5, symtbl, h5.len(), d);
        lemma_table_frame(h5, heap@, symtbl, h5.len(), heap@.len(), d);
    }
    let live = heap.len();
    Ok(Machine { heap, stack, pc, symtbl, live })
}

/// Reads the names of the symbols, up to the semicolon that ends them, and
/// puts a symbol of each name in front of the symbol table.
#[verifier::loop_isolation(false)]
fn read_names(code: &[u8], pos: &mut usize, symtbl: &mut usize, heap: &mut RibHeap) -> (r: Result<
    (),
    VmError,
>)
    requires
        old(heap).wf(),
        *old(symtbl) < old(heap)@.len(),
        *old(pos) <= code@.len(),
        naming(old(heap)@, *old(symtbl)),
    ensures
        match with_names(old(heap)@, code@, *old(pos) as int, *old(symtbl), NIL_REF, 0) {
            Ok((h, p, t)) => {
                &&& r is Ok
                &&& final(heap)@ == h
                &&& *final(pos) == p
                &&& *final(symtbl) == t
                &&& final(heap).wf()
                &&& t < h.len()
                &&& p <= code@.len()
                &&& naming(h, t)
            },
            Err(e) => r == Err::<(), VmError>(e),
        },
{
    let mut accum: usize = NIL_REF;
    let mut n: i32 = 0;
    loop
        invariant
            naming(heap@, *symtbl),
            heap.wf(),
            *symtbl < heap@.len(),
            *pos <= code@.len(),
            accum < heap@.len(),
            0 <= n,
            with_names(heap@, code@, *pos as int, *symtbl, accum, n as int) == with_names(
                old(heap)@,
                code@,
                *old(pos) as int,
                *old(symtbl),
                NIL_REF,
                0,
            ),
        decreases code@.len() - *pos,
    {
        if *pos >= code.len() {
            return Err(VmError::UnexpectedEnd);
        }
        let c = get_byte(code, pos);
        if c == 44 {
            add_symbol(heap, symtbl, accum, n);
            accum = NIL_REF;
            n = 0;
        } else {
            if c == 59 {
                add_symbol(heap, symtbl, accum, n);
                return Ok(());
            }
            if n == i32::MAX {
                return Err(VmError::Overflow);
            }
            proof {
                let cell = pair_rib(RibField::Number(c as i32), accum);
                lemma_push_closed(heap@, cell);
                let d = choose|d: nat| table_ok(heap@, *symtbl, heap@.len(), d);
                lemma_table_frame(heap@, heap@.push(cell), *symtbl, heap@.len(), heap@.len() + 1, d);
            }
            push_stack(RibField::Number(c as i32), &mut accum, heap);
            n += 1;
        }
    }
}

/// Decodes a program text into a machine that is ready to run it. Fails
/// where the text ends too early, where it names a symbol that the table
/// does not hold or pops the build stack when it is empty, where a number in
/// it overflows, and where a character is no instruction.
///
/// The machine is well formed, its singletons are the ribs they start out
/// as, and its symbol table is a list of symbols.
#[verifier::loop_isolation(false)]
pub fn decode(code: &[u8]) -> (r: Result<Machine, VmError>)
    ensures
        match decoded(code@) {
            Ok(v) => r is Ok && r->Ok_0@ == v && v.wf() && naming(v.heap, v.symtbl),
            Err(e) => r is Err && r->Err_0 == e,
        },
{
    let mut heap = RibHeap::with_capacity(code.len());
    heap.push_rib(special());
    heap.push_rib(special());
    heap.push_rib(special());
    assert(heap@ =~= seq![special_rib(), special_rib(), special_rib()]);
    let mut pos: usize = 0;
    let mut symtbl: usize = NIL_REF;
    let count = match read_int(0, code, &mut pos) {
        Ok(n) => n,
        Err(e) => {
            return Err(e);
        },
    };
    proof {
        lemma_int_at_nonnegative(code@, 0, 0);
    }
    let ghost h0 = heap@;
    let mut left = count;
    assert(table_ok(h0, NIL_REF, h0.len(), 0));
    while left > 0
        invariant
            0 <= left <= count,
            naming(heap@, symtbl),
            heap.wf(),
            symtbl < heap@.len(),
            with_anonymous(heap@, symtbl, left as nat) == with_anonymous(h0, NIL_REF, count as nat),
        decreases left,
    {
        left -= 1;
        add_symbol(&mut heap, &mut symtbl, NIL_REF, 0);
    }
    match read_names(code, &mut pos, &mut symtbl, &mut heap) {
        Ok(()) => {},
        Err(e) => {
            return Err(e);
        },
    }
    let ghost h2 = heap@;
    let ghost behind = pos;
    let sentinel = make_data_rib(RibField::Number(6), RibField::Number(6), 6);
    proof {
        lemma_push_closed(h2, sentinel);
        let d = choose|d: nat| table_ok(h2, symtbl, h2.len(), d);
        lemma_table_frame(h2, h2.push(sentinel), symtbl, h2.len(), h2.len(), d);
    }
    let mut stack = heap.push_rib(sentinel);
    let ghost h3 = heap@;
    let ghost s3 = stack;
    assert(crate::shape::build_ok(h3, s3, s3, 0));
    loop
        invariant
            building(heap@, stack, symtbl, s3),
            heap.wf(),
            symtbl < heap@.len(),
            stack < heap@.len(),
            pos <= code@.len(),
            instrs(heap@, code@, pos as int, stack, symtbl) == instrs(
                h3,
                code@,
                behind as int,
                s3,
                symtbl,
            ),
        decreases code@.len() - pos,
    {
        match decode_instruction(code, &mut pos, &mut stack, symtbl, &mut heap, Ghost(s3)) {
            Ok(Some(entry)) => {
                proof {
                    let d = choose|d: nat| table_ok(heap@, symtbl, s3 as nat, d);
                    lemma_table_frame(heap@, heap@, symtbl, s3 as nat, heap@.len(), d);
                }
                return finish(heap, entry, symtbl);
            },
            Ok(None) => {},
            Err(e) => {
                return Err(e);
            },
        }
    }
}

/// The rib that each singleton starts out as.
fn special() -> (r: Rib)
    ensures
        r == special_rib(),
{
    make_data_rib(RibField::Number(0), RibField::Number(0), crate::field::SPECIAL)
}

} // verus!
