//! The primitive operations.

use crate::error::VmError;
use crate::field::{
    bool_field, fits_i32, is_rib, make_rib, pair_rib, to_bool, trunc_div, Rib, RibField, NIL_REF,
};
use crate::heap::{
    field_closed, heap_closed, heap_wf, lemma_closed_at, lemma_push_closed, lemma_update_closed,
    rib_closed, sound, RibHeap,
};
use crate::stack::{
    can_close, can_pop, has_next, next_cell, pop_stack, push_stack, rvm_arg2, rvm_close,
};
use vstd::prelude::*;

verus! {

/// `char::from_u32` turns a number into the character of that code point.
/// The result is `None` exactly where the number is no Unicode scalar
/// value: a surrogate, from `0xD800` to `0xDFFF`, or a number above
/// `0x10FFFF`.
pub assume_specification[ char::from_u32 ](n: u32) -> (r: Option<char>)
    ensures
        r == (if is_scalar(n as int) {
            Some(n as char)
        } else {
            None
        }),
;

/// Whether a number is the code point of a character.
pub open spec fn is_scalar(n: int) -> bool {
    0 <= n <= 0xD7FF || 0xE000 <= n <= 0x10FFFF
}

/// The primitives of one argument that only compute.
#[derive(Copy, Clone, Debug, PartialEq, Eq, Structural)]
pub enum Unary {
    /// The argument itself.
    Id,
    /// Whether the argument is a reference.
    IsRib,
    /// The `first` of the rib that the argument refers to.
    Field0,
    /// Its `middle`.
    Field1,
    /// Its `last`.
    Field2,
}

/// The primitives of two arguments.
#[derive(Copy, Clone, Debug, PartialEq, Eq, Structural)]
pub enum Binary {
    /// Stores the second argument in the `first` of the rib that the first
    /// argument refers to.
    SetField0,
    /// Stores it in the `middle`.
    SetField1,
    /// Stores it in the `last`.
    SetField2,
    /// Whether the arguments are the same integer or the same reference.
    Eqv,
    /// Whether the first argument is an integer less than the second.
    Less,
    /// Sum.
    Add,
    /// Difference.
    Sub,
    /// Product.
    Mul,
    /// Quotient, rounded toward zero.
    Div,
}

/// What a primitive asks of the world outside the machine.
#[derive(Copy, Clone, Debug, PartialEq, Eq, Structural)]
pub enum Effect {
    /// Nothing.
    Nothing,
    /// To write this character.
    Output(char),
    /// To end the process with this status.
    Exit(i32),
}

/// The rib that a field refers to, where it refers to one of the heap.
pub open spec fn target(h: Seq<Rib>, x: RibField) -> Option<Rib> {
    match x {
        RibField::Rib(i) => if i < h.len() {
            Some(h[i as int])
        } else {
            None
        },
        RibField::Number(_) => None,
    }
}

/// The value of a primitive of one argument.
pub open spec fn unary(f: Unary, x: RibField, h: Seq<Rib>) -> Result<RibField, VmError> {
    match f {
        Unary::Id => Ok(x),
        Unary::IsRib => Ok(bool_field(x is Rib)),
        Unary::Field0 => match target(h, x) {
            Some(r) => Ok(r.first),
            None => Err(VmError::Type),
        },
        Unary::Field1 => match target(h, x) {
            Some(r) => Ok(r.middle),
            None => Err(VmError::Type),
        },
        Unary::Field2 => match target(h, x) {
            Some(r) => Ok(r.last),
            None => Err(VmError::Type),
        },
    }
}

/// The result of an arithmetic operation on two integers whose exact value
/// is `v`.
pub open spec fn number(v: int) -> Result<RibField, VmError> {
    if fits_i32(v) {
        Ok(RibField::Number(v as i32))
    } else {
        Err(VmError::Overflow)
    }
}

/// The value of a primitive of two arguments `x` and `y`, in the order in
/// which the program wrote them, and the heap that it leaves.
pub open spec fn binary(f: Binary, x: RibField, y: RibField, h: Seq<Rib>) -> Result<
    (RibField, Seq<Rib>),
    VmError,
> {
    match f {
        Binary::SetField0 => match target(h, x) {
            Some(r) => Ok(
                (y, h.update(x->Rib_0 as int, Rib { first: y, middle: r.middle, last: r.last })),
            ),
            None => Err(VmError::Type),
        },
        Binary::SetField1 => match target(h, x) {
            Some(r) => Ok(
                (y, h.update(x->Rib_0 as int, Rib { first: r.first, middle: y, last: r.last })),
            ),
            None => Err(VmError::Type),
        },
        Binary::SetField2 => match target(h, x) {
            Some(r) => Ok(
                (y, h.update(x->Rib_0 as int, Rib { first: r.first, middle: r.middle, last: y })),
            ),
            None => Err(VmError::Type),
        },
        Binary::Eqv => Ok((bool_field(x == y), h)),
        Binary::Less => Ok((bool_field(x.less_than(y)), h)),
        Binary::Add => match (x, y) {
            (RibField::Number(a), RibField::Number(b)) => match number(a + b) {
                Ok(v) => Ok((v, h)),
                Err(e) => Err(e),
            },
            _ => Err(VmError::Type),
        },
        Binary::Sub => match (x, y) {
            (RibField::Number(a), RibField::Number(b)) => match number(a - b) {
                Ok(v) => Ok((v, h)),
                Err(e) => Err(e),
            },
            _ => Err(VmError::Type),
        },
        Binary::Mul => match (x, y) {
            (RibField::Number(a), RibField::Number(b)) => match number(a * b) {
                Ok(v) => Ok((v, h)),
                Err(e) => Err(e),
            },
            _ => Err(VmError::Type),
        },
        Binary::Div => if y == RibField::Number(0) {
            Err(VmError::DivisionByZero)
        } else {
            match (x, y) {
                (RibField::Number(a), RibField::Number(b)) => match number(
                    trunc_div(a as int, b as int),
                ) {
                    Ok(v) => Ok((v, h)),
                    Err(e) => Err(e),
                },
                _ => Err(VmError::Type),
            }
        },
    }
}

/// The error of a call with `nargs` arguments of a primitive that takes
/// `expected`.
pub open spec fn wrong_count(nargs: u32, expected: u32) -> VmError {
    VmError::Arity { nargs, expected, variadic: false }
}

/// The heap and the stack after a primitive of one argument: the argument
/// is popped and the value pushed.
pub open spec fn prim1(nargs: u32, f: Unary, h: Seq<Rib>, s: usize) -> Result<
    (Seq<Rib>, usize),
    VmError,
> {
    if nargs != 1 {
        Err(wrong_count(nargs, 1))
    } else if !can_pop(h, s) {
        Err(VmError::Type)
    } else {
        match unary(f, h[s as int].first, h) {
            Ok(r) => Ok((h.push(pair_rib(r, next_cell(h, s))), h.len() as usize)),
            Err(e) => Err(e),
        }
    }
}

/// The heap and the stack after a primitive of two arguments: the second
/// argument is popped, then the first, and the value is pushed.
pub open spec fn prim2(nargs: u32, f: Binary, h: Seq<Rib>, s: usize) -> Result<
    (Seq<Rib>, usize),
    VmError,
> {
    if nargs != 2 {
        Err(wrong_count(nargs, 2))
    } else if !can_pop(h, s) || !can_pop(h, next_cell(h, s)) {
        Err(VmError::Type)
    } else {
        let s1 = next_cell(h, s);
        match binary(f, h[s1 as int].first, h[s as int].first, h) {
            Ok((r, h2)) => Ok((h2.push(pair_rib(r, next_cell(h, s1))), h2.len() as usize)),
            Err(e) => Err(e),
        }
    }
}

/// The heap and the stack after the rib constructor: the three fields are
/// popped, last field first, the rib is allocated, and the reference to it
/// is pushed.
pub open spec fn prim3(nargs: u32, h: Seq<Rib>, s: usize) -> Result<(Seq<Rib>, usize), VmError> {
    if nargs != 3 {
        Err(wrong_count(nargs, 3))
    } else if !can_pop(h, s) || !can_pop(h, next_cell(h, s)) || !can_pop(
        h,
        next_cell(h, next_cell(h, s)),
    ) {
        Err(VmError::Type)
    } else {
        let s1 = next_cell(h, s);
        let s2 = next_cell(h, s1);
        let rib = Rib {
            first: h[s2 as int].first,
            middle: h[s1 as int].first,
            last: h[s as int].first,
        };
        Ok(
            (
                h.push(rib).push(pair_rib(RibField::Rib(h.len() as usize), next_cell(h, s2))),
                (h.len() + 1) as usize,
            ),
        )
    }
}

/// Computes a primitive of one argument.
pub fn apply_unary(f: Unary, x: RibField, holder: &RibHeap) -> (r: Result<RibField, VmError>)
    ensures
        r == unary(f, x, holder@),
        heap_wf(holder@) && field_closed(x, holder@.len()) ==> (r matches Ok(v) ==> field_closed(
            v,
            holder@.len(),
        )),
{
    match f {
        Unary::Id => Ok(x),
        Unary::IsRib => {
            let test = || -> (b: bool)
                ensures
                    b == (x is Rib),
                { is_rib(&x) };
            Ok(to_bool(test))
        },
        Unary::Field0 => match load(&x, holder) {
            Some(r) => Ok(r.first),
            None => Err(VmError::Type),
        },
        Unary::Field1 => match load(&x, holder) {
            Some(r) => Ok(r.middle),
            None => Err(VmError::Type),
        },
        Unary::Field2 => match load(&x, holder) {
            Some(r) => Ok(r.last),
            None => Err(VmError::Type),
        },
    }
}

/// The rib that a field refers to, where it refers to one of the heap.
pub fn load(x: &RibField, holder: &RibHeap) -> (r: Option<Rib>)
    ensures
        r == target(holder@, *x),
        heap_closed(holder@) ==> (r matches Some(rib) ==> rib_closed(rib, holder@.len())),
{
    match x {
        RibField::Rib(i) => if *i < holder.len() {
            Some(x.get_rib(holder))
        } else {
            None
        },
        RibField::Number(_) => None,
    }
}

/// Computes a primitive of two arguments.
pub fn apply_binary(f: Binary, x: RibField, y: RibField, holder: &mut RibHeap) -> (r: Result<
    RibField,
    VmError,
>)
    ensures
        match binary(f, x, y, old(holder)@) {
            Ok((v, h)) => {
                &&& r == Ok::<RibField, VmError>(v)
                &&& final(holder)@ == h
                &&& h.len() == old(holder)@.len()
                &&& heap_wf(old(holder)@) && field_closed(x, h.len()) && field_closed(y, h.len())
                    ==> heap_wf(h) && field_closed(v, h.len())
            },
            Err(e) => r == Err::<RibField, VmError>(e),
        },
{
    let ghost h = holder@;
    match f {
        Binary::SetField0 => match load(&x, holder) {
            Some(rib) => {
                let new_rib = make_rib(y, rib.middle, rib.last);
                proof {
                    lemma_update_closed(h, x->Rib_0 as int, new_rib);
                }
                holder.set(&x.get_rib_ref(), new_rib);
                Ok(y)
            },
            None => Err(VmError::Type),
        },
        Binary::SetField1 => match load(&x, holder) {
            Some(rib) => {
                let new_rib = make_rib(rib.first, y, rib.last);
                proof {
                    lemma_update_closed(h, x->Rib_0 as int, new_rib);
                }
                holder.set(&x.get_rib_ref(), new_rib);
                Ok(y)
            },
            None => Err(VmError::Type),
        },
        Binary::SetField2 => match load(&x, holder) {
            Some(rib) => {
                let new_rib = make_rib(rib.first, rib.middle, y);
                proof {
                    lemma_update_closed(h, x->Rib_0 as int, new_rib);
                }
                holder.set(&x.get_rib_ref(), new_rib);
                Ok(y)
            },
            None => Err(VmError::Type),
        },
        Binary::Eqv => {
            let test = || -> (b: bool)
                ensures
                    b == (x == y),
                { x == y };
            Ok(to_bool(test))
        },
        Binary::Less => {
            let test = || -> (b: bool)
                ensures
                    b == x.less_than(y),
                { x.lt_field(&y) };
            Ok(to_bool(test))
        },
        Binary::Add => match (x, y) {
            (RibField::Number(a), RibField::Number(b)) => match a.checked_add(b) {
                Some(_) => match x + y {
                    Some(v) => Ok(v),
                    None => Err(VmError::Type),
                },
                None => Err(VmError::Overflow),
            },
            _ => Err(VmError::Type),
        },
        Binary::Sub => match (x, y) {
            (RibField::Number(a), RibField::Number(b)) => match a.checked_sub(b) {
                Some(_) => match x - y {
                    Some(v) => Ok(v),
                    None => Err(VmError::Type),
                },
                None => Err(VmError::Overflow),
            },
            _ => Err(VmError::Type),
        },
        Binary::Mul => match (x, y) {
            (RibField::Number(a), RibField::Number(b)) => match a.checked_mul(b) {
                Some(_) => match x * y {
                    Some(v) => Ok(v),
                    None => Err(VmError::Type),
                },
                None => Err(VmError::Overflow),
            },
            _ => Err(VmError::Type),
        },
        Binary::Div => match (x, y) {
            (_, RibField::Number(0)) => Err(VmError::DivisionByZero),
            (RibField::Number(a), RibField::Number(b)) => {
                proof {
                    lemma_quotient_fits(a as int, b as int);
                }
                if a == i32::MIN && b == -1 {
                    Err(VmError::Overflow)
                } else {
                    match x / y {
                        Some(v) => Ok(v),
                        None => Err(VmError::Type),
                    }
                }
            },
            _ => Err(VmError::Type),
        },
    }
}

/// The quotient of two machine integers is a machine integer, but for the
/// least one divided by -1.
pub proof fn lemma_quotient_fits(a: int, b: int)
    requires
        fits_i32(a),
        fits_i32(b),
        b != 0,
    ensures
        fits_i32(trunc_div(a, b)) <==> !(a == i32::MIN && b == -1),
{
    let ma = crate::field::magnitude(a);
    let mb = crate::field::magnitude(b);
    vstd::arithmetic::div_mod::lemma_div_pos_is_pos(ma, mb);
    vstd::arithmetic::div_mod::lemma_div_is_ordered_by_denominator(ma, 1, mb);
    vstd::arithmetic::div_mod::lemma_div_basics(ma);
    if mb >= 2 {
        vstd::arithmetic::div_mod::lemma_div_is_ordered_by_denominator(ma, 2, mb);
    }
}

/// The heap, the stack and the list after `left` more values have gone
/// from the stack to the front of the list. Only cells whose `last` is the
/// integer 0 hold values: at any other cell the stack has run out, with
/// `found` values taken of the `expected`.
pub open spec fn listed(
    h: Seq<Rib>,
    s: usize,
    list: usize,
    left: nat,
    found: nat,
    expected: u32,
) -> Result<(Seq<Rib>, usize, usize), VmError>
    decreases left,
{
    if left == 0 {
        Ok((h, s, list))
    } else if s >= h.len() {
        Err(VmError::Type)
    } else if h[s as int].last != RibField::Number(0) {
        Err(VmError::ListUnderflow { expected, found: found as usize })
    } else if !(h[s as int].middle is Rib) {
        Err(VmError::Type)
    } else {
        listed(
            h.push(pair_rib(h[s as int].first, list)),
            next_cell(h, s),
            h.len() as usize,
            (left - 1) as nat,
            found + 1,
            expected,
        )
    }
}

/// The integer that the input primitive pushes: the byte read, or -1 at the
/// end of the input.
pub open spec fn input_code(input: Option<u8>) -> i32 {
    match input {
        Some(b) => b as i32,
        None => -1i32,
    }
}

/// A result without an effect.
pub open spec fn quiet(r: Result<(Seq<Rib>, usize), VmError>) -> Result<
    (Seq<Rib>, usize, Effect),
    VmError,
> {
    match r {
        Ok((h, s)) => Ok((h, s, Effect::Nothing)),
        Err(e) => Err(e),
    }
}

/// What the primitive of number `code` does when called with `nargs`
/// arguments on the stack `s`: the heap and the stack that it leaves, and
/// its effect. `input` is what the input primitive reads.
pub open spec fn primitive(
    code: int,
    nargs: u32,
    input: Option<u8>,
    h: Seq<Rib>,
    s: usize,
) -> Result<(Seq<Rib>, usize, Effect), VmError> {
    if code == 0 {
        quiet(prim3(nargs, h, s))
    } else if code == 1 {
        quiet(prim1(nargs, Unary::Id, h, s))
    } else if code == 2 {
        if nargs != 2 {
            Err(wrong_count(nargs, 2))
        } else if !can_pop(h, s) {
            Err(VmError::Type)
        } else {
            Ok((h, next_cell(h, s), Effect::Nothing))
        }
    } else if code == 3 {
        if nargs != 2 {
            Err(wrong_count(nargs, 2))
        } else if !can_pop(h, s) || !can_pop(h, next_cell(h, s)) {
            Err(VmError::Type)
        } else {
            Ok(
                (
                    h.push(pair_rib(h[s as int].first, next_cell(h, next_cell(h, s)))),
                    h.len() as usize,
                    Effect::Nothing,
                ),
            )
        }
    } else if code == 4 {
        if nargs != 1 {
            Err(wrong_count(nargs, 1))
        } else if !can_close(h, s) {
            Err(VmError::Type)
        } else {
            let p = h[s as int].first->Rib_0 as int;
            let below = next_cell(h, s);
            let closure = Rib {
                first: h[p].first,
                middle: RibField::Rib(below),
                last: RibField::Number(crate::field::PROCEDURE),
            };
            Ok(
                (
                    h.push(closure).push(pair_rib(RibField::Rib(h.len() as usize), below)),
                    (h.len() + 1) as usize,
                    Effect::Nothing,
                ),
            )
        }
    } else if code == 5 {
        quiet(prim1(nargs, Unary::IsRib, h, s))
    } else if code == 6 {
        quiet(prim1(nargs, Unary::Field0, h, s))
    } else if code == 7 {
        quiet(prim1(nargs, Unary::Field1, h, s))
    } else if code == 8 {
        quiet(prim1(nargs, Unary::Field2, h, s))
    } else if code == 9 {
        quiet(prim2(nargs, Binary::SetField0, h, s))
    } else if code == 10 {
        quiet(prim2(nargs, Binary::SetField1, h, s))
    } else if code == 11 {
        quiet(prim2(nargs, Binary::SetField2, h, s))
    } else if code == 12 {
        quiet(prim2(nargs, Binary::Eqv, h, s))
    } else if code == 13 {
        quiet(prim2(nargs, Binary::Less, h, s))
    } else if code == 14 {
        quiet(prim2(nargs, Binary::Add, h, s))
    } else if code == 15 {
        quiet(prim2(nargs, Binary::Sub, h, s))
    } else if code == 16 {
        quiet(prim2(nargs, Binary::Mul, h, s))
    } else if code == 17 {
        quiet(prim2(nargs, Binary::Div, h, s))
    } else if code == 18 {
        if nargs != 0 {
            Err(wrong_count(nargs, 0))
        } else {
            Ok(
                (
                    h.push(pair_rib(RibField::Number(input_code(input)), s)),
                    h.len() as usize,
                    Effect::Nothing,
                ),
            )
        }
    } else if code == 19 {
        if nargs != 1 {
            Err(wrong_count(nargs, 1))
        } else if !can_pop(h, s) {
            Err(VmError::Type)
        } else {
            match h[s as int].first {
                RibField::Rib(_) => Err(VmError::Type),
                RibField::Number(n) => if is_scalar(n as int) {
                    Ok(
                        (
                            h.push(pair_rib(RibField::Number(n), next_cell(h, s))),
                            h.len() as usize,
                            Effect::Output(n as char),
                        ),
                    )
                } else {
                    Err(VmError::InvalidCharacter(n))
                },
            }
        }
    } else if code == 20 {
        match listed(h, s, NIL_REF, nargs as nat, 0, nargs) {
            Ok((h2, s2, list)) => Ok(
                (h2.push(pair_rib(RibField::Rib(list), s2)), h2.len() as usize, Effect::Nothing),
            ),
            Err(e) => Err(e),
        }
    } else if code == 21 {
        if nargs != 1 {
            Err(wrong_count(nargs, 1))
        } else if !can_pop(h, s) {
            Err(VmError::Type)
        } else {
            match h[s as int].first {
                RibField::Number(v) => Ok((h, next_cell(h, s), Effect::Exit(v))),
                RibField::Rib(_) => Ok((h, next_cell(h, s), Effect::Exit(256))),
            }
        }
    } else {
        Err(VmError::UnknownPrimitive(code as i32))
    }
}

/// Pops the stack, where it can be popped.
pub fn try_pop(stack: &mut usize, holder: &RibHeap) -> (r: Result<RibField, VmError>)
    ensures
        can_pop(holder@, *old(stack)) ==> r == Ok::<RibField, VmError>(
            holder@[*old(stack) as int].first,
        ) && *final(stack) == next_cell(holder@, *old(stack)),
        !can_pop(holder@, *old(stack)) ==> r == Err::<RibField, VmError>(VmError::Type),
        heap_closed(holder@) && r is Ok ==> *final(stack) < holder@.len() && field_closed(
            r->Ok_0,
            holder@.len(),
        ),
{
    if has_next(*stack, holder) {
        proof {
            lemma_closed_at(holder@, *stack as int);
        }
        Ok(pop_stack(stack, holder))
    } else {
        Err(VmError::Type)
    }
}

/// Pushes a value. A sound heap stays sound if the value holds no dangling
/// reference.
pub fn push_value(x: RibField, stack: &mut usize, holder: &mut RibHeap)
    ensures
        final(holder)@ == old(holder)@.push(pair_rib(x, *old(stack))),
        *final(stack) == old(holder)@.len(),
        final(holder)@.len() <= usize::MAX,
        sound(old(holder)@, *old(stack)) && field_closed(x, old(holder)@.len()) ==> sound(
            final(holder)@,
            *final(stack),
        ),
{
    proof {
        lemma_push_closed(holder@, pair_rib(x, *stack));
    }
    push_stack(x, stack, holder);
}

/// Runs a primitive of one argument: pops the argument and pushes the
/// value.
pub fn rvm_prim1(expected_nargs: u32, f: Unary, stack: &mut usize, holder: &mut RibHeap) -> (r:
    Result<(), VmError>)
    ensures
        match prim1(expected_nargs, f, old(holder)@, *old(stack)) {
            Ok((h, s)) => {
                &&& r is Ok
                &&& final(holder)@ == h
                &&& *final(stack) == s
                &&& sound(old(holder)@, *old(stack)) ==> sound(h, s)
                &&& old(holder)@.len() <= h.len()
            },
            Err(e) => r == Err::<(), VmError>(e),
        },
{
    if expected_nargs != 1 {
        return Err(VmError::Arity { nargs: expected_nargs, expected: 1, variadic: false });
    }
    let x = match try_pop(stack, holder) {
        Ok(x) => x,
        Err(e) => {
            return Err(e);
        },
    };
    let r = match apply_unary(f, x, holder) {
        Ok(r) => r,
        Err(e) => {
            return Err(e);
        },
    };
    push_value(r, stack, holder);
    Ok(())
}

/// Runs a primitive of two arguments: pops the second argument, then the
/// first, and pushes the value.
pub fn rvm_prim2(expected_nargs: u32, f: Binary, stack: &mut usize, holder: &mut RibHeap) -> (r:
    Result<(), VmError>)
    ensures
        match prim2(expected_nargs, f, old(holder)@, *old(stack)) {
            Ok((h, s)) => {
                &&& r is Ok
                &&& final(holder)@ == h
                &&& *final(stack) == s
                &&& sound(old(holder)@, *old(stack)) ==> sound(h, s)
                &&& old(holder)@.len() <= h.len()
            },
            Err(e) => r == Err::<(), VmError>(e),
        },
{
    if expected_nargs != 2 {
        return Err(VmError::Arity { nargs: expected_nargs, expected: 2, variadic: false });
    }
    let y = match try_pop(stack, holder) {
        Ok(x) => x,
        Err(e) => {
            return Err(e);
        },
    };
    let x = match try_pop(stack, holder) {
        Ok(x) => x,
        Err(e) => {
            return Err(e);
        },
    };
    let r = match apply_binary(f, x, y, holder) {
        Ok(r) => r,
        Err(e) => {
            return Err(e);
        },
    };
    push_value(r, stack, holder);
    Ok(())
}

/// Runs the rib constructor: pops the three fields, last field first,
/// allocates the rib and pushes the reference to it.
pub fn rvm_prim3(expected_nargs: u32, stack: &mut usize, holder: &mut RibHeap) -> (r: Result<
    (),
    VmError,
>)
    ensures
        match prim3(expected_nargs, old(holder)@, *old(stack)) {
            Ok((h, s)) => {
                &&& r is Ok
                &&& final(holder)@ == h
                &&& *final(stack) == s
                &&& sound(old(holder)@, *old(stack)) ==> sound(h, s)
                &&& old(holder)@.len() <= h.len()
            },
            Err(e) => r == Err::<(), VmError>(e),
        },
{
    if expected_nargs != 3 {
        return Err(VmError::Arity { nargs: expected_nargs, expected: 3, variadic: false });
    }
    let z = match try_pop(stack, holder) {
        Ok(x) => x,
        Err(e) => {
            return Err(e);
        },
    };
    let y = match try_pop(stack, holder) {
        Ok(x) => x,
        Err(e) => {
            return Err(e);
        },
    };
    let x = match try_pop(stack, holder) {
        Ok(x) => x,
        Err(e) => {
            return Err(e);
        },
    };
    let rib = make_rib(x, y, z);
    proof {
        lemma_push_closed(holder@, rib);
    }
    let made = holder.push_rib(rib);
    push_value(RibField::Rib(made), stack, holder);
    Ok(())
}

/// Pushes what the input primitive read: the byte, or -1 at the end of the
/// input.
pub fn rvm_getchar(input: Option<u8>, stack: &mut usize, holder: &mut RibHeap)
    ensures
        final(holder)@ == old(holder)@.push(
            pair_rib(RibField::Number(input_code(input)), *old(stack)),
        ),
        *final(stack) == old(holder)@.len(),
        sound(old(holder)@, *old(stack)) ==> sound(final(holder)@, *final(stack)),
{
    match input {
        Some(b) => push_value(RibField::Number(b as i32), stack, holder),
        None => push_value(RibField::Number(-1), stack, holder),
    }
}

/// Runs the list primitive: takes `expected_nargs` values off the stack
/// and pushes the list of them, the deepest value first.
pub fn rvm_list(expected_nargs: u32, stack: &mut usize, holder: &mut RibHeap) -> (r: Result<
    (),
    VmError,
>)
    ensures
        match listed(old(holder)@, *old(stack), NIL_REF, expected_nargs as nat, 0, expected_nargs) {
            Ok((h2, s2, list)) => {
                &&& r is Ok
                &&& final(holder)@ == h2.push(pair_rib(RibField::Rib(list), s2))
                &&& *final(stack) == h2.len()
                &&& sound(old(holder)@, *old(stack)) ==> sound(final(holder)@, *final(stack))
                &&& old(holder)@.len() <= h2.len()
            },
            Err(e) => r == Err::<(), VmError>(e),
        },
{
    let mut n_elems = expected_nargs;
    let mut new_list = NIL_REF;
    let mut found: u32 = 0;
    while n_elems > 0
        invariant
            sound(old(holder)@, *old(stack)) ==> sound(holder@, *stack) && new_list
                < holder@.len(),
            found + n_elems == expected_nargs,
            old(holder)@.len() <= holder@.len(),
            listed(holder@, *stack, new_list, n_elems as nat, found as nat, expected_nargs)
                == listed(
                old(holder)@,
                *old(stack),
                NIL_REF,
                expected_nargs as nat,
                0,
                expected_nargs,
            ),
        decreases n_elems,
    {
        if *stack >= holder.len() {
            return Err(VmError::Type);
        }
        let top = holder.get(stack);
        match top.last {
            RibField::Number(0) => {},
            _ => {
                return Err(
                    VmError::ListUnderflow { expected: expected_nargs, found: found as usize },
                );
            },
        }
        let e = match try_pop(stack, holder) {
            Ok(x) => x,
            Err(e) => {
                return Err(e);
            },
        };
        push_value(e, &mut new_list, holder);
        n_elems -= 1;
        found += 1;
    }
    push_value(RibField::Rib(new_list), stack, holder);
    Ok(())
}

/// Runs the primitive of number `code`, called with `expected_nargs`
/// arguments. `input` is what the input primitive reads: the next byte of
/// the input, or `None` at its end.
pub fn primitives(
    code: i32,
    expected_nargs: u32,
    input: Option<u8>,
    stack: &mut usize,
    rib_heap: &mut RibHeap,
) -> (r: Result<Effect, VmError>)
    ensures
        match primitive(code as int, expected_nargs, input, old(rib_heap)@, *old(stack)) {
            Ok((h, s, effect)) => {
                &&& r == Ok::<Effect, VmError>(effect)
                &&& final(rib_heap)@ == h
                &&& *final(stack) == s
                &&& sound(old(rib_heap)@, *old(stack)) ==> sound(h, s)
                &&& old(rib_heap)@.len() <= h.len()
            },
            Err(e) => r == Err::<Effect, VmError>(e),
        },
{
    let ghost h = rib_heap@;
    let wrong = |expected: u32| -> (e: VmError)
        ensures
            e == wrong_count(expected_nargs, expected),
        { VmError::Arity { nargs: expected_nargs, expected, variadic: false } };
    match code {
        0 => silent(rvm_prim3(expected_nargs, stack, rib_heap)),
        1 => silent(rvm_prim1(expected_nargs, Unary::Id, stack, rib_heap)),
        2 => {
            if expected_nargs != 2 {
                return Err(wrong(2));
            }
            match try_pop(stack, rib_heap) {
                Ok(_) => Ok(Effect::Nothing),
                Err(e) => Err(e),
            }
        },
        3 => {
            if expected_nargs != 2 {
                return Err(wrong(2));
            }
            if !has_next(*stack, rib_heap) {
                return Err(VmError::Type);
            }
            let below = rib_heap.get(stack).middle.get_rib_ref();
            if !has_next(below, rib_heap) {
                return Err(VmError::Type);
            }
            proof {
                lemma_closed_at(h, *stack as int);
                lemma_closed_at(h, below as int);
                lemma_push_closed(
                    h,
                    pair_rib(h[*stack as int].first, next_cell(h, next_cell(h, *stack))),
                );
            }
            rvm_arg2(stack, rib_heap);
            Ok(Effect::Nothing)
        },
        4 => {
            if expected_nargs != 1 {
                return Err(wrong(1));
            }
            if !has_next(*stack, rib_heap) {
                return Err(VmError::Type);
            }
            match load(&rib_heap.get(stack).first, rib_heap) {
                Some(_) => {},
                None => {
                    return Err(VmError::Type);
                },
            }
            proof {
                let p = h[*stack as int].first->Rib_0 as int;
                let below = next_cell(h, *stack);
                let closure = Rib {
                    first: h[p].first,
                    middle: RibField::Rib(below),
                    last: RibField::Number(crate::field::PROCEDURE),
                };
                lemma_closed_at(h, *stack as int);
                lemma_closed_at(h, p);
                lemma_push_closed(h, closure);
                lemma_push_closed(
                    h.push(closure),
                    pair_rib(RibField::Rib(h.len() as usize), below),
                );
            }
            rvm_close(stack, rib_heap);
            Ok(Effect::Nothing)
        },
        5 => silent(rvm_prim1(expected_nargs, Unary::IsRib, stack, rib_heap)),
        6 => silent(rvm_prim1(expected_nargs, Unary::Field0, stack, rib_heap)),
        7 => silent(rvm_prim1(expected_nargs, Unary::Field1, stack, rib_heap)),
        8 => silent(rvm_prim1(expected_nargs, Unary::Field2, stack, rib_heap)),
        9 => silent(rvm_prim2(expected_nargs, Binary::SetField0, stack, rib_heap)),
        10 => silent(rvm_prim2(expected_nargs, Binary::SetField1, stack, rib_heap)),
        11 => silent(rvm_prim2(expected_nargs, Binary::SetField2, stack, rib_heap)),
        12 => silent(rvm_prim2(expected_nargs, Binary::Eqv, stack, rib_heap)),
        13 => silent(rvm_prim2(expected_nargs, Binary::Less, stack, rib_heap)),
        14 => silent(rvm_prim2(expected_nargs, Binary::Add, stack, rib_heap)),
        15 => silent(rvm_prim2(expected_nargs, Binary::Sub, stack, rib_heap)),
        16 => silent(rvm_prim2(expected_nargs, Binary::Mul, stack, rib_heap)),
        17 => silent(rvm_prim2(expected_nargs, Binary::Div, stack, rib_heap)),
        18 => {
            if expected_nargs != 0 {
                return Err(wrong(0));
            }
            rvm_getchar(input, stack, rib_heap);
            Ok(Effect::Nothing)
        },
        19 => {
            if expected_nargs != 1 {
                return Err(wrong(1));
            }
            let x = match try_pop(stack, rib_heap) {
                Ok(x) => x,
                Err(e) => {
                    return Err(e);
                },
            };
            let n = match x {
                RibField::Number(n) => n,
                RibField::Rib(_) => {
                    return Err(VmError::Type);
                },
            };
            if n < 0 {
                return Err(VmError::InvalidCharacter(n));
            }
            match char::from_u32(n as u32) {
                Some(c) => {
                    push_value(x, stack, rib_heap);
                    Ok(Effect::Output(c))
                },
                None => Err(VmError::InvalidCharacter(n)),
            }
        },
        20 => silent(rvm_list(expected_nargs, stack, rib_heap)),
        21 => {
            if expected_nargs != 1 {
                return Err(wrong(1));
            }
            match try_pop(stack, rib_heap) {
                Ok(RibField::Number(value)) => Ok(Effect::Exit(value)),
                Ok(RibField::Rib(_)) => Ok(Effect::Exit(256)),
                Err(e) => Err(e),
            }
        },
        n => Err(VmError::UnknownPrimitive(n)),
    }
}

/// A result without an effect.
fn silent(r: Result<(), VmError>) -> (out: Result<Effect, VmError>)
    ensures
        out == match r {
            Ok(_) => Ok::<Effect, VmError>(Effect::Nothing),
            Err(e) => Err::<Effect, VmError>(e),
        },
{
    match r {
        Ok(()) => Ok(Effect::Nothing),
        Err(e) => Err(e),
    }
}

} // verus!
