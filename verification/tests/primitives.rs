use rvm::error::VmError;
use rvm::field::{Rib, RibField};
use rvm::heap::RibHeap;
use rvm::prims::{
    apply_binary, apply_unary, load, primitives, push_value, rvm_getchar, rvm_list, rvm_prim1,
    rvm_prim2, rvm_prim3, try_pop, Binary, Effect, Unary,
};
use rvm::stack::{pop_stack, push_stack};

fn n(v: i32) -> RibField {
    RibField::Number(v)
}

fn r(i: usize) -> RibField {
    RibField::Rib(i)
}

fn rib(first: RibField, middle: RibField, last: RibField) -> Rib {
    Rib { first, middle, last }
}

/// A heap with the singletons and a stack of the given values above a
/// continuation frame, the last value on top.
fn stacked(values: &[RibField]) -> (RibHeap, usize) {
    let mut heap = RibHeap::with_capacity(16);
    for _ in 0..3 {
        heap.push_rib(rib(n(0), n(0), n(5)));
    }
    let halt = heap.push_rib(rib(n(5), n(0), n(0)));
    let mut stack = heap.push_rib(rib(n(0), n(0), r(halt)));
    for v in values {
        push_stack(*v, &mut stack, &mut heap);
    }
    (heap, stack)
}

/// The values of the stack from the top down to the continuation frame.
fn values(mut stack: usize, heap: &RibHeap) -> Vec<RibField> {
    let mut out = Vec::new();
    while heap.get(&stack).last == n(0) {
        out.push(pop_stack(&mut stack, heap));
    }
    out
}

/// Runs a primitive on a stack of values and gives the stack it leaves.
fn after(code: i32, nargs: u32, stack: &[RibField]) -> Result<Vec<RibField>, VmError> {
    let (mut heap, mut stack) = stacked(stack);
    match primitives(code, nargs, None, &mut stack, &mut heap) {
        Ok(Effect::Nothing) => {
            assert!(heap.is_wf());
            Ok(values(stack, &heap))
        }
        Ok(effect) => panic!("an effect: {:?}", effect),
        Err(e) => Err(e),
    }
}

fn wrong(nargs: u32, expected: u32) -> VmError {
    VmError::Arity { nargs, expected, variadic: false }
}

#[test]
fn load_follows_a_reference_into_the_heap() {
    let (heap, _) = stacked(&[]);
    assert_eq!(load(&r(3), &heap), Some(rib(n(5), n(0), n(0))));
    assert_eq!(load(&r(5), &heap), None);
    assert_eq!(load(&n(3), &heap), None);
}

#[test]
fn try_pop_and_push_value() {
    let (mut heap, mut stack) = stacked(&[n(1)]);
    push_value(r(2), &mut stack, &mut heap);
    assert_eq!(try_pop(&mut stack, &heap), Ok(r(2)));
    assert_eq!(try_pop(&mut stack, &heap), Ok(n(1)));
    // The frame's `middle` is an integer: nothing follows it.
    assert_eq!(try_pop(&mut stack, &heap), Err(VmError::Type));
}

#[test]
fn unary_primitives_compute() {
    let (heap, _) = stacked(&[]);
    assert_eq!(apply_unary(Unary::Id, n(5), &heap), Ok(n(5)));
    assert_eq!(apply_unary(Unary::IsRib, n(5), &heap), Ok(r(0)));
    assert_eq!(apply_unary(Unary::IsRib, r(2), &heap), Ok(r(1)));
    assert_eq!(apply_unary(Unary::Field0, r(4), &heap), Ok(n(0)));
    assert_eq!(apply_unary(Unary::Field1, r(4), &heap), Ok(n(0)));
    assert_eq!(apply_unary(Unary::Field2, r(4), &heap), Ok(r(3)));
    assert_eq!(apply_unary(Unary::Field0, n(4), &heap), Err(VmError::Type));
    assert_eq!(apply_unary(Unary::Field1, n(4), &heap), Err(VmError::Type));
    assert_eq!(apply_unary(Unary::Field2, n(4), &heap), Err(VmError::Type));
}

#[test]
fn binary_primitives_compute() {
    let (mut heap, _) = stacked(&[]);
    let h = &mut heap;
    assert_eq!(apply_binary(Binary::Eqv, n(5), n(5), h), Ok(r(1)));
    assert_eq!(apply_binary(Binary::Eqv, n(5), r(5), h), Ok(r(0)));
    assert_eq!(apply_binary(Binary::Eqv, r(2), r(2), h), Ok(r(1)));
    assert_eq!(apply_binary(Binary::Less, n(4), n(5), h), Ok(r(1)));
    assert_eq!(apply_binary(Binary::Less, n(5), n(4), h), Ok(r(0)));
    assert_eq!(apply_binary(Binary::Less, r(0), n(4), h), Ok(r(0)));
    assert_eq!(apply_binary(Binary::Add, n(40), n(2), h), Ok(n(42)));
    assert_eq!(apply_binary(Binary::Sub, n(40), n(2), h), Ok(n(38)));
    assert_eq!(apply_binary(Binary::Mul, n(40), n(-2), h), Ok(n(-80)));
    assert_eq!(apply_binary(Binary::Div, n(-41), n(2), h), Ok(n(-20)));
    assert_eq!(apply_binary(Binary::Add, n(i32::MAX), n(1), h), Err(VmError::Overflow));
    assert_eq!(apply_binary(Binary::Sub, n(i32::MIN), n(1), h), Err(VmError::Overflow));
    assert_eq!(apply_binary(Binary::Mul, n(65536), n(32768), h), Err(VmError::Overflow));
    assert_eq!(apply_binary(Binary::Mul, n(65536), n(-32768), h), Ok(n(i32::MIN)));
    assert_eq!(apply_binary(Binary::Div, n(i32::MIN), n(-1), h), Err(VmError::Overflow));
    assert_eq!(apply_binary(Binary::Div, n(1), n(0), h), Err(VmError::DivisionByZero));
    assert_eq!(apply_binary(Binary::Div, r(1), n(0), h), Err(VmError::DivisionByZero));
    assert_eq!(apply_binary(Binary::Div, n(1), r(0), h), Err(VmError::Type));
    assert_eq!(apply_binary(Binary::Add, r(1), n(0), h), Err(VmError::Type));
    assert_eq!(apply_binary(Binary::Sub, n(1), r(0), h), Err(VmError::Type));
    assert_eq!(apply_binary(Binary::Mul, r(1), r(0), h), Err(VmError::Type));
}

#[test]
fn field_setters_store_and_give_the_value() {
    let (mut heap, _) = stacked(&[]);
    assert_eq!(apply_binary(Binary::SetField0, r(3), n(7), &mut heap), Ok(n(7)));
    assert_eq!(heap.get(&3), rib(n(7), n(0), n(0)));
    assert_eq!(apply_binary(Binary::SetField1, r(3), r(1), &mut heap), Ok(r(1)));
    assert_eq!(heap.get(&3), rib(n(7), r(1), n(0)));
    assert_eq!(apply_binary(Binary::SetField2, r(3), n(9), &mut heap), Ok(n(9)));
    assert_eq!(heap.get(&3), rib(n(7), r(1), n(9)));
    assert_eq!(apply_unary(Unary::Field0, r(3), &heap), Ok(n(7)));
    assert_eq!(apply_unary(Unary::Field1, r(3), &heap), Ok(r(1)));
    assert_eq!(apply_unary(Unary::Field2, r(3), &heap), Ok(n(9)));
    assert_eq!(apply_binary(Binary::SetField0, n(3), n(7), &mut heap), Err(VmError::Type));
    assert_eq!(apply_binary(Binary::SetField1, n(3), n(7), &mut heap), Err(VmError::Type));
    assert_eq!(apply_binary(Binary::SetField2, n(3), n(7), &mut heap), Err(VmError::Type));
}

#[test]
fn prim1_pops_one_and_pushes_one() {
    let (mut heap, mut stack) = stacked(&[n(8), r(4)]);
    assert_eq!(rvm_prim1(1, Unary::Field2, &mut stack, &mut heap), Ok(()));
    assert_eq!(values(stack, &heap), vec![r(3), n(8)]);
    assert_eq!(rvm_prim1(2, Unary::Id, &mut stack, &mut heap), Err(wrong(2, 1)));
    assert_eq!(rvm_prim1(0, Unary::Id, &mut stack, &mut heap), Err(wrong(0, 1)));
    let (mut heap, mut stack) = stacked(&[]);
    assert_eq!(rvm_prim1(1, Unary::Id, &mut stack, &mut heap), Err(VmError::Type));
}

#[test]
fn prim2_takes_the_second_argument_from_the_top() {
    let (mut heap, mut stack) = stacked(&[n(8), n(10), n(3)]);
    assert_eq!(rvm_prim2(2, Binary::Sub, &mut stack, &mut heap), Ok(()));
    assert_eq!(values(stack, &heap), vec![n(7), n(8)]);
    assert_eq!(rvm_prim2(3, Binary::Sub, &mut stack, &mut heap), Err(wrong(3, 2)));
    let (mut heap, mut stack) = stacked(&[n(8)]);
    assert_eq!(rvm_prim2(2, Binary::Sub, &mut stack, &mut heap), Err(VmError::Type));
}

#[test]
fn prim3_makes_a_rib_of_the_three_values() {
    let (mut heap, mut stack) = stacked(&[n(1), r(2), n(3)]);
    assert_eq!(rvm_prim3(3, &mut stack, &mut heap), Ok(()));
    let made = values(stack, &heap);
    assert_eq!(made.len(), 1);
    assert_eq!(made[0].get_rib(&heap), rib(n(1), r(2), n(3)));
    assert_eq!(rvm_prim3(1, &mut stack, &mut heap), Err(wrong(1, 3)));
    let (mut heap, mut stack) = stacked(&[n(1), n(2)]);
    assert_eq!(rvm_prim3(3, &mut stack, &mut heap), Err(VmError::Type));
}

#[test]
fn the_rib_constructor_and_the_getters_round_trip() {
    for (a, b, c) in [(n(1), n(2), n(3)), (r(0), n(-5), r(2)), (r(4), r(4), r(4))] {
        for (getter, expected) in [(6, a), (7, b), (8, c)] {
            let (mut heap, mut stack) = stacked(&[a, b, c]);
            assert_eq!(primitives(0, 3, None, &mut stack, &mut heap), Ok(Effect::Nothing));
            assert_eq!(primitives(getter, 1, None, &mut stack, &mut heap), Ok(Effect::Nothing));
            assert_eq!(values(stack, &heap), vec![expected]);
        }
    }
}

#[test]
fn a_field_that_was_set_is_read_back() {
    for (setter, getter) in [(9, 6), (10, 7), (11, 8)] {
        let (mut heap, mut stack) = stacked(&[r(3), r(3), n(77)]);
        assert_eq!(primitives(setter, 2, None, &mut stack, &mut heap), Ok(Effect::Nothing));
        assert_eq!(values(stack, &heap), vec![n(77), r(3)]);
        assert_eq!(try_pop(&mut stack, &heap), Ok(n(77)));
        assert_eq!(primitives(getter, 1, None, &mut stack, &mut heap), Ok(Effect::Nothing));
        assert_eq!(values(stack, &heap), vec![n(77)]);
    }
}

#[test]
fn the_primitives_by_number() {
    assert_eq!(after(1, 1, &[n(4), n(5)]), Ok(vec![n(5), n(4)]));
    // Primitive 2 takes the top value off and pushes nothing.
    assert_eq!(after(2, 2, &[n(4), n(5)]), Ok(vec![n(4)]));
    assert_eq!(after(3, 2, &[n(3), n(4), n(5)]), Ok(vec![n(5), n(3)]));
    assert_eq!(after(5, 1, &[n(5)]), Ok(vec![r(0)]));
    assert_eq!(after(5, 1, &[r(5)]), Ok(vec![r(1)]));
    assert_eq!(after(12, 2, &[r(5), r(5)]), Ok(vec![r(1)]));
    assert_eq!(after(12, 2, &[r(5), n(5)]), Ok(vec![r(0)]));
    assert_eq!(after(13, 2, &[n(4), n(5)]), Ok(vec![r(1)]));
    assert_eq!(after(13, 2, &[n(5), n(4)]), Ok(vec![r(0)]));
    assert_eq!(after(14, 2, &[n(2), n(3)]), Ok(vec![n(5)]));
    assert_eq!(after(15, 2, &[n(2), n(3)]), Ok(vec![n(-1)]));
    assert_eq!(after(16, 2, &[n(2), n(3)]), Ok(vec![n(6)]));
    assert_eq!(after(17, 2, &[n(7), n(2)]), Ok(vec![n(3)]));
    assert_eq!(after(17, 2, &[n(-7), n(2)]), Ok(vec![n(-3)]));
}

#[test]
fn a_wrong_number_of_arguments_is_fatal() {
    assert_eq!(after(0, 2, &[n(1), n(2), n(3)]), Err(wrong(2, 3)));
    assert_eq!(after(1, 0, &[n(1)]), Err(wrong(0, 1)));
    assert_eq!(after(2, 1, &[n(1), n(2)]), Err(wrong(1, 2)));
    assert_eq!(after(3, 3, &[n(1), n(2)]), Err(wrong(3, 2)));
    assert_eq!(after(4, 2, &[r(3)]), Err(wrong(2, 1)));
    for code in [5, 6, 7, 8, 19, 21] {
        assert_eq!(after(code, 2, &[r(3), r(3)]), Err(wrong(2, 1)));
    }
    for code in 9..=17 {
        assert_eq!(after(code, 1, &[r(3), n(3)]), Err(wrong(1, 2)));
    }
    assert_eq!(after(18, 1, &[n(3)]), Err(wrong(1, 0)));
    assert_eq!(wrong(1, 0).exit_code(), Some(256));
}

#[test]
fn a_primitive_that_finds_the_wrong_kind_of_value_fails() {
    assert_eq!(after(6, 1, &[n(3)]), Err(VmError::Type));
    assert_eq!(after(9, 2, &[n(3), n(3)]), Err(VmError::Type));
    assert_eq!(after(14, 2, &[r(3), n(3)]), Err(VmError::Type));
    assert_eq!(after(4, 1, &[n(3)]), Err(VmError::Type));
    assert_eq!(after(19, 1, &[r(3)]), Err(VmError::Type));
    assert_eq!(after(1, 1, &[]), Err(VmError::Type));
    assert_eq!(after(2, 2, &[]), Err(VmError::Type));
    assert_eq!(after(3, 2, &[n(1)]), Err(VmError::Type));
    assert_eq!(after(21, 1, &[]), Err(VmError::Type));
}

#[test]
fn division_by_zero_and_overflow() {
    assert_eq!(after(17, 2, &[n(7), n(0)]), Err(VmError::DivisionByZero));
    assert_eq!(after(17, 2, &[n(i32::MIN), n(-1)]), Err(VmError::Overflow));
    assert_eq!(after(14, 2, &[n(i32::MAX), n(1)]), Err(VmError::Overflow));
    assert_eq!(after(16, 2, &[n(i32::MAX), n(2)]), Err(VmError::Overflow));
}

#[test]
fn numbers_that_name_no_primitive() {
    assert_eq!(after(22, 0, &[]), Err(VmError::UnknownPrimitive(22)));
    assert_eq!(after(-1, 0, &[]), Err(VmError::UnknownPrimitive(-1)));
    assert_eq!(after(256, 3, &[n(1), n(2), n(3)]), Err(VmError::UnknownPrimitive(256)));
}

#[test]
fn getchar_pushes_the_byte_or_minus_one() {
    let (mut heap, mut stack) = stacked(&[]);
    assert_eq!(primitives(18, 0, Some(b'a'), &mut stack, &mut heap), Ok(Effect::Nothing));
    assert_eq!(primitives(18, 0, Some(0), &mut stack, &mut heap), Ok(Effect::Nothing));
    assert_eq!(primitives(18, 0, Some(255), &mut stack, &mut heap), Ok(Effect::Nothing));
    assert_eq!(primitives(18, 0, None, &mut stack, &mut heap), Ok(Effect::Nothing));
    rvm_getchar(Some(b'z'), &mut stack, &mut heap);
    rvm_getchar(None, &mut stack, &mut heap);
    assert_eq!(values(stack, &heap), vec![n(-1), n(122), n(-1), n(255), n(0), n(97)]);
}

#[test]
fn putchar_hands_the_character_out_and_keeps_its_code() {
    let (mut heap, mut stack) = stacked(&[n(7), n(65)]);
    assert_eq!(primitives(19, 1, None, &mut stack, &mut heap), Ok(Effect::Output('A')));
    assert_eq!(values(stack, &heap), vec![n(65), n(7)]);
    let (mut heap, mut stack) = stacked(&[n(0x1F600)]);
    assert_eq!(primitives(19, 1, None, &mut stack, &mut heap), Ok(Effect::Output('\u{1F600}')));
    let (mut heap, mut stack) = stacked(&[n(0xD7FF)]);
    assert_eq!(primitives(19, 1, None, &mut stack, &mut heap), Ok(Effect::Output('\u{D7FF}')));
    let (mut heap, mut stack) = stacked(&[n(0)]);
    assert_eq!(primitives(19, 1, None, &mut stack, &mut heap), Ok(Effect::Output('\0')));
}

#[test]
fn putchar_refuses_what_is_no_character() {
    for code in [-1, 0xD800, 0xDFFF, 0x110000, i32::MAX, i32::MIN] {
        let (mut heap, mut stack) = stacked(&[n(code)]);
        assert_eq!(
            primitives(19, 1, None, &mut stack, &mut heap),
            Err(VmError::InvalidCharacter(code))
        );
    }
    let (mut heap, mut stack) = stacked(&[n(0xE000)]);
    assert_eq!(primitives(19, 1, None, &mut stack, &mut heap), Ok(Effect::Output('\u{E000}')));
    let (mut heap, mut stack) = stacked(&[n(0x10FFFF)]);
    assert_eq!(primitives(19, 1, None, &mut stack, &mut heap), Ok(Effect::Output('\u{10FFFF}')));
}

#[test]
fn exit_hands_the_status_out() {
    let (mut heap, mut stack) = stacked(&[n(3)]);
    assert_eq!(primitives(21, 1, None, &mut stack, &mut heap), Ok(Effect::Exit(3)));
    let (mut heap, mut stack) = stacked(&[n(-3)]);
    assert_eq!(primitives(21, 1, None, &mut stack, &mut heap), Ok(Effect::Exit(-3)));
    let (mut heap, mut stack) = stacked(&[r(3)]);
    assert_eq!(primitives(21, 1, None, &mut stack, &mut heap), Ok(Effect::Exit(256)));
}

/// The elements of the list at a field.
fn elements(mut list: RibField, heap: &RibHeap) -> Vec<RibField> {
    let mut out = Vec::new();
    while list != r(2) {
        let cell = list.get_rib(heap);
        out.push(cell.first);
        list = cell.middle;
    }
    out
}

#[test]
fn list_gathers_the_arguments_in_their_order() {
    let (mut heap, mut stack) = stacked(&[n(9), n(1), n(2), n(3)]);
    assert_eq!(primitives(20, 3, None, &mut stack, &mut heap), Ok(Effect::Nothing));
    let left = values(stack, &heap);
    assert_eq!(left.len(), 2);
    assert_eq!(elements(left[0], &heap), vec![n(1), n(2), n(3)]);
    assert_eq!(left[1], n(9));
    let (mut heap, mut stack) = stacked(&[n(9)]);
    assert_eq!(rvm_list(0, &mut stack, &mut heap), Ok(()));
    assert_eq!(values(stack, &heap), vec![r(2), n(9)]);
}

#[test]
fn list_fails_where_the_stack_runs_out() {
    let (mut heap, mut stack) = stacked(&[n(1), n(2)]);
    assert_eq!(
        primitives(20, 3, None, &mut stack, &mut heap),
        Err(VmError::ListUnderflow { expected: 3, found: 2 })
    );
    let (mut heap, mut stack) = stacked(&[]);
    assert_eq!(
        primitives(20, u32::MAX, None, &mut stack, &mut heap),
        Err(VmError::ListUnderflow { expected: u32::MAX, found: 0 })
    );
    assert_eq!(VmError::ListUnderflow { expected: 3, found: 2 }.exit_code(), Some(256));
}

#[test]
fn close_makes_a_closure_over_the_stack() {
    let (mut heap, mut stack) = stacked(&[n(5)]);
    let code = heap.push_rib(rib(n(4), n(0), r(3)));
    let procedure = heap.push_rib(rib(r(code), r(2), n(1)));
    let below = stack;
    push_stack(r(procedure), &mut stack, &mut heap);
    assert_eq!(primitives(4, 1, None, &mut stack, &mut heap), Ok(Effect::Nothing));
    let left = values(stack, &heap);
    assert_eq!(left.len(), 2);
    assert_eq!(left[0].get_rib(&heap), rib(r(code), r(below), n(1)));
}
