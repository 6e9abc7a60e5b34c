//! The interpreter: what one instruction does to the machine.

use crate::error::VmError;
use crate::field::{
    is_rib, make_rib, pair_rib, Rib, RibField, CALL, CNST, FALSE_REF, GET, HALT, IF, NIL_REF, SET,
};
use crate::heap::{
    field_closed, lemma_closed_at, lemma_push_closed, lemma_update_closed, rib_closed, sound,
    RibHeap,
};
use crate::machine::{Machine, MachineView};
use crate::prims::{load, primitive, primitives, push_value, target, try_pop, Effect};
use crate::stack::{can_pop, cont_of, find_cont, find_opnd, next_cell, opnd_cell};
use vstd::prelude::*;

verus! {

/// How an instruction ended.
#[derive(Copy, Clone, Debug, PartialEq, Eq, Structural)]
pub enum Outcome {
    /// The machine is ready for the next instruction.
    Continue,
    /// The machine is ready for the next instruction, and this character is
    /// to be written.
    Output(char),
    /// The instruction was `halt`: the program has ended.
    Halt,
    /// The program asked to end the process with this status.
    Exit(i32),
}

/// The heap and the two stacks after `n` values have gone from the stack
/// `from` to the stack `onto`, one by one, so that the value that was on
/// top of `from` lies deepest on `onto`. `None` where `from` runs out.
pub open spec fn moved(h: Seq<Rib>, from: usize, onto: usize, n: nat) -> Option<
    (Seq<Rib>, usize, usize),
>
    decreases n,
{
    if n == 0 {
        Some((h, from, onto))
    } else if !can_pop(h, from) {
        None
    } else {
        moved(
            h.push(pair_rib(h[from as int].first, onto)),
            next_cell(h, from),
            h.len() as usize,
            (n - 1) as nat,
        )
    }
}

/// The cell of the heap that an operand names, where it names one.
pub open spec fn operand_cell(h: Seq<Rib>, o: RibField, stack: usize) -> Option<usize> {
    match opnd_cell(h, o, stack) {
        Some(c) => if c < h.len() {
            Some(c)
        } else {
            None
        },
        None => None,
    }
}

/// A call of the procedure at `q`, whose code is the rib `code`, with
/// `nargs` arguments on the stack `stack`. `ret` is the `last` field of the
/// calling instruction: a reference for a call, an integer for a jump.
///
/// The code's first field holds twice the number of parameters, plus one
/// for a procedure that takes a rest list. A procedure without a rest list
/// takes as many arguments as it has parameters, one with a rest list at
/// least as many. A frame cell is allocated, whose `middle` is the
/// procedure. For a rest list the arguments beyond the parameters are moved
/// to a list, which is pushed on the frame; then the other arguments are
/// moved to the frame. A call's frame cell gets the stack that is left as
/// its `first` and `ret` as its `last`; a jump's frame cell gets both from
/// the nearest continuation frame of the stack that is left. The new stack
/// is the frame with the arguments, and the program goes on at the code's
/// `last`.
pub open spec fn called(
    h: Seq<Rib>,
    stack: usize,
    nargs: i32,
    q: usize,
    code: Rib,
    ret: RibField,
) -> Result<(Seq<Rib>, usize, RibField), VmError> {
    match code.first {
        RibField::Rib(_) => Err(VmError::Type),
        RibField::Number(raw) => {
            let variadic = raw > 0 && raw % 2 == 1;
            let nparams = raw as int / 2;
            if (!variadic && nparams != nargs) || (variadic && nparams > nargs) {
                Err(VmError::Arity { nargs: nargs as u32, expected: nparams as u32, variadic })
            } else {
                let frame = h.len() as usize;
                let h1 = h.push(
                    Rib {
                        first: RibField::Number(0),
                        middle: RibField::Rib(q),
                        last: RibField::Number(0),
                    },
                );
                let rest = if variadic {
                    match moved(h1, stack, NIL_REF, (nargs - nparams) as nat) {
                        Some((h2, s2, list)) => Some(
                            (h2.push(pair_rib(RibField::Rib(list), frame)), s2, h2.len() as usize),
                        ),
                        None => None,
                    }
                } else {
                    Some((h1, stack, frame))
                };
                match rest {
                    None => Err(VmError::Type),
                    Some((h3, s3, top)) => match moved(
                        h3,
                        s3,
                        top,
                        if nparams > 0 {
                            nparams as nat
                        } else {
                            0
                        },
                    ) {
                        None => Err(VmError::Type),
                        Some((h4, s4, top4)) => if ret is Rib {
                            Ok(
                                (
                                    h4.update(
                                        frame as int,
                                        Rib {
                                            first: RibField::Rib(s4),
                                            middle: RibField::Rib(q),
                                            last: ret,
                                        },
                                    ),
                                    top4,
                                    code.last,
                                ),
                            )
                        } else {
                            match cont_of(h4, s4) {
                                None => Err(VmError::Type),
                                Some(k) => Ok(
                                    (
                                        h4.update(
                                            frame as int,
                                            Rib {
                                                first: h4[k as int].first,
                                                middle: RibField::Rib(q),
                                                last: h4[k as int].last,
                                            },
                                        ),
                                        top4,
                                        code.last,
                                    ),
                                ),
                            }
                        },
                    },
                }
            }
        },
    }
}

/// Where the program goes on after a primitive, called by the instruction
/// at `p`, has left the heap `h` and the stack `s`. After a call it goes on
/// behind the instruction. After a jump it returns: the value on top of the
/// stack is put in front of the stack that the nearest continuation frame
/// saved, and the program goes on where that frame says.
pub open spec fn returned(h: Seq<Rib>, s: usize, p: usize) -> Result<(Seq<Rib>, RibField), VmError> {
    if h[p as int].last is Rib {
        Ok((h, h[p as int].last))
    } else {
        match cont_of(h, s) {
            None => Err(VmError::Type),
            Some(k) => Ok(
                (
                    h.update(
                        s as int,
                        Rib {
                            first: h[s as int].first,
                            middle: h[k as int].first,
                            last: h[s as int].last,
                        },
                    ),
                    h[k as int].last,
                ),
            ),
        }
    }
}

/// The outcome that passes a primitive's effect on.
pub open spec fn outcome_of(effect: Effect) -> Outcome {
    match effect {
        Effect::Nothing => Outcome::Continue,
        Effect::Output(c) => Outcome::Output(c),
        Effect::Exit(v) => Outcome::Exit(v),
    }
}

/// What the call instruction at `p` with the operand `o` does. The number
/// of arguments is popped; the operand names the cell whose `first` is the
/// procedure; the procedure's `first` is its code: a rib for a procedure of
/// the program, an integer for a primitive.
///
/// A primitive that ends the process ends the instruction. After any other
/// primitive the program goes on as `returned` says. Where it cannot, the
/// instruction fails; but a character that the primitive has handed out is
/// not lost: the instruction ends well, with the program counter at the
/// integer that is the instruction's `last`, and the next one fails.
pub open spec fn call_step(m: MachineView, p: usize, o: RibField, input: Option<u8>) -> Result<
    (MachineView, Outcome),
    VmError,
> {
    let h = m.heap;
    if !can_pop(h, m.stack) {
        Err(VmError::Type)
    } else {
        match h[m.stack as int].first {
            RibField::Rib(_) => Err(VmError::Type),
            RibField::Number(nargs) => {
                let stack = next_cell(h, m.stack);
                match operand_cell(h, o, stack) {
                    None => Err(VmError::Type),
                    Some(c) => match target(h, h[c as int].first) {
                        None => Err(VmError::Type),
                        Some(procedure) => {
                            let q = h[c as int].first->Rib_0;
                            match procedure.first {
                                RibField::Rib(cr) => match target(h, procedure.first) {
                                    None => Err(VmError::Type),
                                    Some(code) => match called(
                                        h,
                                        stack,
                                        nargs,
                                        q,
                                        code,
                                        h[p as int].last,
                                    ) {
                                        Err(e) => Err(e),
                                        Ok((h2, s2, pc)) => Ok(
                                            (
                                                MachineView {
                                                    heap: h2,
                                                    stack: s2,
                                                    pc,
                                                    symtbl: m.symtbl,
                                                    live: m.live,
                                                },
                                                Outcome::Continue,
                                            ),
                                        ),
                                    },
                                },
                                RibField::Number(k) => match primitive(
                                    k as int,
                                    nargs as u32,
                                    input,
                                    h,
                                    stack,
                                ) {
                                    Err(e) => Err(e),
                                    Ok((h2, s2, effect)) => if effect is Exit {
                                        Ok(
                                            (
                                                MachineView {
                                                    heap: h2,
                                                    stack: s2,
                                                    pc: m.pc,
                                                    symtbl: m.symtbl,
                                                    live: m.live,
                                                },
                                                outcome_of(effect),
                                            ),
                                        )
                                    } else {
                                        match returned(h2, s2, p) {
                                            Err(e) => match effect {
                                                Effect::Output(_) => Ok(
                                                    (
                                                        MachineView {
                                                            heap: h2,
                                                            stack: s2,
                                                            pc: h2[p as int].last,
                                                            symtbl: m.symtbl,
                                                            live: m.live,
                                                        },
                                                        outcome_of(effect),
                                                    ),
                                                ),
                                                _ => Err(e),
                                            },
                                            Ok((h3, pc)) => Ok(
                                                (
                                                    MachineView {
                                                        heap: h3,
                                                        stack: s2,
                                                        pc,
                                                        symtbl: m.symtbl,
                                                        live: m.live,
                                                    },
                                                    outcome_of(effect),
                                                ),
                                            ),
                                        }
                                    },
                                },
                            }
                        },
                    },
                }
            },
        }
    }
}

/// What the machine's next instruction does: the machine that it leaves and
/// how it ended. `input` is what the input primitive reads, should the
/// instruction call it.
///
/// The program counter must refer to a rib whose `first` is the opcode:
/// 0, call or jump, see `call_step`; 1, set: the value popped off the
/// stack goes to the `first` of the cell that the operand names; 2, get:
/// the `first` of that cell is pushed; 3, const: the operand is pushed;
/// 4, if: a value is popped, and the program goes on at the instruction's
/// `last` if it is `#f` and at its `middle` if not; 5, halt. The others go
/// on at the instruction's `last`.
pub open spec fn executed(m: MachineView, input: Option<u8>) -> Result<
    (MachineView, Outcome),
    VmError,
> {
    let h = m.heap;
    match target(h, m.pc) {
        None => Err(VmError::Type),
        Some(instr) => {
            let p = m.pc->Rib_0;
            let o = instr.middle;
            match instr.first {
                RibField::Rib(_) => Err(VmError::Type),
                RibField::Number(op) => if op == HALT {
                    Ok((m, Outcome::Halt))
                } else if op == CALL {
                    call_step(m, p, o, input)
                } else if op == SET {
                    match operand_cell(h, o, m.stack) {
                        None => Err(VmError::Type),
                        Some(c) => if !can_pop(h, m.stack) {
                            Err(VmError::Type)
                        } else {
                            let h2 = h.update(
                                c as int,
                                Rib {
                                    first: h[m.stack as int].first,
                                    middle: h[c as int].middle,
                                    last: h[c as int].last,
                                },
                            );
                            Ok(
                                (
                                    MachineView {
                                        heap: h2,
                                        stack: next_cell(h, m.stack),
                                        pc: h2[p as int].last,
                                        symtbl: m.symtbl,
                                        live: m.live,
                                    },
                                    Outcome::Continue,
                                ),
                            )
                        },
                    }
                } else if op == GET {
                    match operand_cell(h, o, m.stack) {
                        None => Err(VmError::Type),
                        Some(c) => Ok(
                            (
                                MachineView {
                                    heap: h.push(pair_rib(h[c as int].first, m.stack)),
                                    stack: h.len() as usize,
                                    pc: instr.last,
                                    symtbl: m.symtbl,
                                    live: m.live,
                                },
                                Outcome::Continue,
                            ),
                        ),
                    }
                } else if op == CNST {
                    Ok(
                        (
                            MachineView {
                                heap: h.push(pair_rib(o, m.stack)),
                                stack: h.len() as usize,
                                pc: instr.last,
                                symtbl: m.symtbl,
                                live: m.live,
                            },
                            Outcome::Continue,
                        ),
                    )
                } else if op == IF {
                    if !can_pop(h, m.stack) {
                        Err(VmError::Type)
                    } else {
                        Ok(
                            (
                                MachineView {
                                    heap: h,
                                    stack: next_cell(h, m.stack),
                                    pc: if h[m.stack as int].first == RibField::Rib(FALSE_REF) {
                                        instr.last
                                    } else {
                                        instr.middle
                                    },
                                    symtbl: m.symtbl,
                                    live: m.live,
                                },
                                Outcome::Continue,
                            ),
                        )
                    }
                } else {
                    Err(VmError::UnknownOpcode(op))
                },
            }
        },
    }
}

/// Whether the machine's next instruction calls the input primitive, with
/// no arguments, as that primitive wants it.
pub open spec fn awaits_input(m: MachineView) -> bool {
    let h = m.heap;
    match target(h, m.pc) {
        None => false,
        Some(instr) => {
            &&& instr.first == RibField::Number(CALL)
            &&& can_pop(h, m.stack)
            &&& h[m.stack as int].first == RibField::Number(0)
            &&& match operand_cell(h, instr.middle, next_cell(h, m.stack)) {
                None => false,
                Some(c) => match target(h, h[c as int].first) {
                    None => false,
                    Some(procedure) => procedure.first == RibField::Number(18),
                },
            }
        },
    }
}

/// Moves `n` values from the stack `from` to the stack `onto`.
pub fn move_args(from: &mut usize, onto: &mut usize, n: i32, heap: &mut RibHeap) -> (r: Result<
    (),
    VmError,
>)
    ensures
        match moved(
            old(heap)@,
            *old(from),
            *old(onto),
            if n > 0 {
                n as nat
            } else {
                0
            },
        ) {
            Some((h, f, o)) => {
                &&& r is Ok
                &&& final(heap)@ == h
                &&& *final(from) == f
                &&& *final(onto) == o
                &&& sound(old(heap)@, *old(from)) && *old(onto) < old(heap)@.len() ==> sound(h, f)
                    && o < h.len()
                &&& old(heap)@.len() <= h.len()
            },
            None => r == Err::<(), VmError>(VmError::Type),
        },
{
    let mut left: i32 = if n > 0 {
        n
    } else {
        0
    };
    while left > 0
        invariant
            0 <= left,
            sound(old(heap)@, *old(from)) && *old(onto) < old(heap)@.len() ==> sound(heap@, *from)
                && *onto < heap@.len(),
            old(heap)@.len() <= heap@.len(),
            moved(heap@, *from, *onto, left as nat) == moved(
                old(heap)@,
                *old(from),
                *old(onto),
                if n > 0 {
                    n as nat
                } else {
                    0
                },
            ),
        decreases left,
    {
        let x = match try_pop(from, heap) {
            Ok(x) => x,
            Err(e) => {
                return Err(e);
            },
        };
        push_value(x, onto, heap);
        left -= 1;
    }
    Ok(())
}

/// Half of an integer, rounded down.
fn half(raw: i32) -> (r: i32)
    ensures
        r == raw as int / 2,
{
    if raw >= 0 {
        raw / 2
    } else {
        -((-(raw + 1)) / 2) - 1
    }
}

/// Calls a procedure of the program.
pub fn call_procedure(
    heap: &mut RibHeap,
    stack: &mut usize,
    nargs: i32,
    q: usize,
    code: Rib,
    ret: RibField,
) -> (r: Result<RibField, VmError>)
    ensures
        match called(old(heap)@, *old(stack), nargs, q, code, ret) {
            Ok((h, s, pc)) => {
                &&& r == Ok::<RibField, VmError>(pc)
                &&& final(heap)@ == h
                &&& *final(stack) == s
                &&& {
                    &&& sound(old(heap)@, *old(stack))
                    &&& q < old(heap)@.len()
                    &&& rib_closed(code, old(heap)@.len())
                    &&& field_closed(ret, old(heap)@.len())
                } ==> sound(h, s) && field_closed(pc, h.len())
                &&& old(heap)@.len() <= h.len()
            },
            Err(e) => r == Err::<RibField, VmError>(e),
        },
{
    let raw = match code.first {
        RibField::Number(raw) => raw,
        RibField::Rib(_) => {
            return Err(VmError::Type);
        },
    };
    let variadic = raw > 0 && raw % 2 == 1;
    let nparams = half(raw);
    if !variadic && nparams != nargs || variadic && nparams > nargs {
        return Err(
            VmError::Arity {
                nargs: #[verifier::truncate]
                (nargs as u32),
                expected: #[verifier::truncate]
                (nparams as u32),
                variadic,
            },
        );
    }
    let ghost h = heap@;
    let mut c2 = make_rib(RibField::Number(0), RibField::Rib(q), RibField::Number(0));
    proof {
        lemma_push_closed(h, c2);
    }
    let c2_ref = heap.push_rib(c2);
    let mut s2 = c2_ref;
    if variadic {
        let mut rest = NIL_REF;
        match move_args(stack, &mut rest, nargs - nparams, heap) {
            Ok(()) => {},
            Err(e) => {
                return Err(e);
            },
        }
        push_value(RibField::Rib(rest), &mut s2, heap);
    }
    match move_args(stack, &mut s2, nparams, heap) {
        Ok(()) => {},
        Err(e) => {
            return Err(e);
        },
    }
    let ghost h4 = heap@;
    if is_rib(&ret) {
        c2.first = RibField::Rib(*stack);
        c2.last = ret;
    } else {
        let k = match find_cont(*stack, heap) {
            Some(k) => k,
            None => {
                return Err(VmError::Type);
            },
        };
        proof {
            lemma_cont_in_heap(h4, *stack, h4.len());
            lemma_closed_at(h4, k as int);
        }
        let frame = heap.get(&k);
        c2.first = frame.first;
        c2.last = frame.last;
    }
    proof {
        lemma_update_closed(h4, c2_ref as int, c2);
    }
    heap.set(&c2_ref, c2);
    *stack = s2;
    Ok(code.last)
}

/// A continuation frame that is found lies in the heap.
pub proof fn lemma_cont_in_heap(h: Seq<Rib>, s: usize, fuel: nat)
    ensures
        crate::stack::cont_from(h, s, fuel) matches Some(k) ==> k < h.len() && h[k as int].last is Rib,
    decreases fuel,
{
    if s < h.len() && !(h[s as int].last is Rib) && fuel > 0 && h[s as int].middle is Rib {
        lemma_cont_in_heap(h, next_cell(h, s), (fuel - 1) as nat);
    }
}

/// Goes on after a primitive that the instruction at `p` called.
pub fn return_from(heap: &mut RibHeap, stack: usize, p: usize) -> (r: Result<RibField, VmError>)
    requires
        p < old(heap)@.len(),
    ensures
        match returned(old(heap)@, stack, p) {
            Ok((h, pc)) => {
                &&& r == Ok::<RibField, VmError>(pc)
                &&& final(heap)@ == h
                &&& sound(old(heap)@, stack) ==> sound(h, stack) && field_closed(pc, h.len())
                &&& old(heap)@.len() == h.len()
            },
            Err(e) => r == Err::<RibField, VmError>(e) && final(heap)@ == old(heap)@,
        },
{
    let ghost h = heap@;
    let instr = heap.get(&p);
    proof {
        lemma_closed_at(h, p as int);
    }
    if is_rib(&instr.last) {
        Ok(instr.last)
    } else {
        let k = match find_cont(stack, heap) {
            Some(k) => k,
            None => {
                return Err(VmError::Type);
            },
        };
        proof {
            lemma_cont_in_heap(h, stack, h.len());
            lemma_closed_at(h, k as int);
            lemma_closed_at(h, stack as int);
        }
        let frame = heap.get(&k);
        let mut top_stack = heap.get(&stack);
        top_stack.middle = frame.first;
        proof {
            lemma_update_closed(h, stack as int, top_stack);
        }
        heap.set(&stack, top_stack);
        Ok(frame.last)
    }
}

impl Machine {
    /// Runs the call instruction at `p` with the operand `o`.
    fn call(&mut self, p: usize, o: RibField, input: Option<u8>) -> (r: Result<Outcome, VmError>)
        requires
            p < old(self)@.heap.len(),
            old(self)@.pc == RibField::Rib(p),
            o == old(self)@.heap[p as int].middle,
        ensures
            match call_step(old(self)@, p, o, input) {
                Ok((m, outcome)) => {
                    &&& r == Ok::<Outcome, VmError>(outcome)
                    &&& final(self)@ == m
                    &&& old(self).wf() ==> outcome is Exit || m.wf()
                    &&& old(self)@.heap.len() <= m.heap.len()
                },
                Err(e) => r == Err::<Outcome, VmError>(e),
            },
    {
        let ghost h = self.heap@;
        proof {
            lemma_closed_at(h, p as int);
        }
        let mut stack = self.stack;
        let nargs = match try_pop(&mut stack, &self.heap) {
            Ok(RibField::Number(n)) => n,
            Ok(RibField::Rib(_)) => {
                return Err(VmError::Type);
            },
            Err(e) => {
                return Err(e);
            },
        };
        let c = match find_opnd(&o, stack, &self.heap) {
            Some(c) => c,
            None => {
                return Err(VmError::Type);
            },
        };
        proof {
            lemma_closed_at(h, c as int);
        }
        let callee = self.heap.get(&c).first;
        let procedure = match load(&callee, &self.heap) {
            Some(r) => r,
            None => {
                return Err(VmError::Type);
            },
        };
        let q = callee.get_rib_ref();
        match procedure.first {
            RibField::Rib(_) => {
                let code = match load(&procedure.first, &self.heap) {
                    Some(r) => r,
                    None => {
                        return Err(VmError::Type);
                    },
                };
                let ret = self.heap.get(&p).last;
                match call_procedure(&mut self.heap, &mut stack, nargs, q, code, ret) {
                    Ok(pc) => {
                        self.stack = stack;
                        self.pc = pc;
                        Ok(Outcome::Continue)
                    },
                    Err(e) => Err(e),
                }
            },
            RibField::Number(k) => {
                let effect = match primitives(
                    k,
                    #[verifier::truncate]
                    (nargs as u32),
                    input,
                    &mut stack,
                    &mut self.heap,
                ) {
                    Ok(effect) => effect,
                    Err(e) => {
                        return Err(e);
                    },
                };
                self.stack = stack;
                match effect {
                    Effect::Exit(v) => Ok(Outcome::Exit(v)),
                    Effect::Output(ch) => {
                        let ghost h2 = self.heap@;
                        match return_from(&mut self.heap, stack, p) {
                            Ok(pc) => {
                                self.pc = pc;
                            },
                            Err(_) => {
                                proof {
                                    lemma_closed_at(h2, p as int);
                                }
                                self.pc = self.heap.get(&p).last;
                            },
                        }
                        Ok(Outcome::Output(ch))
                    },
                    Effect::Nothing => match return_from(&mut self.heap, stack, p) {
                        Ok(pc) => {
                            self.pc = pc;
                            Ok(Outcome::Continue)
                        },
                        Err(e) => Err(e),
                    },
                }
            },
        }
    }

    /// Runs the machine's next instruction. `input` is what the input
    /// primitive reads, should the instruction call it: the next byte of the
    /// input, or `None` at its end. A well-formed machine stays well
    /// formed, and the heap does not shrink: no rib leaves its index. After
    /// an error the machine's state is not specified.
    pub fn execute(&mut self, input: Option<u8>) -> (r: Result<Outcome, VmError>)
        ensures
            match executed(old(self)@, input) {
                Ok((m, outcome)) => {
                    &&& r == Ok::<Outcome, VmError>(outcome)
                    &&& final(self)@ == m
                    &&& old(self).wf() ==> outcome is Exit || m.wf()
                    &&& old(self)@.heap.len() <= m.heap.len()
                },
                Err(e) => r == Err::<Outcome, VmError>(e),
            },
    {
        let ghost h = self.heap@;
        let instr = match load(&self.pc, &self.heap) {
            Some(r) => r,
            None => {
                return Err(VmError::Type);
            },
        };
        let p = self.pc.get_rib_ref();
        let o = instr.middle;
        let op = match instr.first {
            RibField::Number(op) => op,
            RibField::Rib(_) => {
                return Err(VmError::Type);
            },
        };
        if op == HALT {
            Ok(Outcome::Halt)
        } else if op == CALL {
            self.call(p, o, input)
        } else if op == SET {
            let c = match find_opnd(&o, self.stack, &self.heap) {
                Some(c) => c,
                None => {
                    return Err(VmError::Type);
                },
            };
            let mut set_rib = self.heap.get(&c);
            let mut stack = self.stack;
            let top = match try_pop(&mut stack, &self.heap) {
                Ok(x) => x,
                Err(e) => {
                    return Err(e);
                },
            };
            set_rib.first = top;
            proof {
                lemma_closed_at(h, c as int);
                lemma_update_closed(h, c as int, set_rib);
            }
            self.heap.set(&c, set_rib);
            self.stack = stack;
            proof {
                lemma_closed_at(self.heap@, p as int);
            }
            self.pc = self.heap.get(&p).last;
            Ok(Outcome::Continue)
        } else if op == GET {
            let c = match find_opnd(&o, self.stack, &self.heap) {
                Some(c) => c,
                None => {
                    return Err(VmError::Type);
                },
            };
            proof {
                lemma_closed_at(h, c as int);
            }
            let gotten_element = self.heap.get(&c).first;
            let mut stack = self.stack;
            push_value(gotten_element, &mut stack, &mut self.heap);
            self.stack = stack;
            self.pc = instr.last;
            Ok(Outcome::Continue)
        } else if op == CNST {
            let mut stack = self.stack;
            push_value(o, &mut stack, &mut self.heap);
            self.stack = stack;
            self.pc = instr.last;
            Ok(Outcome::Continue)
        } else if op == IF {
            let mut stack = self.stack;
            let bool_expr = match try_pop(&mut stack, &self.heap) {
                Ok(x) => x,
                Err(e) => {
                    return Err(e);
                },
            };
            self.stack = stack;
            if bool_expr == RibField::Rib(FALSE_REF) {
                self.pc = instr.last;
            } else {
                self.pc = instr.middle;
            }
            Ok(Outcome::Continue)
        } else {
            Err(VmError::UnknownOpcode(op))
        }
    }

    /// Whether the next instruction calls the input primitive: whether the
    /// caller is to read a byte and hand it to `execute`.
    pub fn wants_input(&self) -> (b: bool)
        ensures
            b == awaits_input(self@),
    {
        let instr = match load(&self.pc, &self.heap) {
            Some(r) => r,
            None => {
                return false;
            },
        };
        if instr.first != RibField::Number(CALL) {
            return false;
        }
        let mut stack = self.stack;
        match try_pop(&mut stack, &self.heap) {
            Ok(RibField::Number(0)) => {},
            _ => {
                return false;
            },
        }
        let c = match find_opnd(&instr.middle, stack, &self.heap) {
            Some(c) => c,
            None => {
                return false;
            },
        };
        match load(&self.heap.get(&c).first, &self.heap) {
            Some(procedure) => procedure.first == RibField::Number(18),
            None => false,
        }
    }
}

} // verus!
