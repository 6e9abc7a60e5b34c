use rvm::field::{Rib, RibField};
use rvm::heap::{field_in, RibHeap};
use rvm::stack::{
    find_cont, find_opnd, find_symbol, find_tail, get_cont, get_opnd, get_opnd_ref, has_next,
    list_tail, pop_stack, push_stack, rvm_arg2, rvm_close, set_global, symbol_ref,
};

fn n(v: i32) -> RibField {
    RibField::Number(v)
}

fn r(i: usize) -> RibField {
    RibField::Rib(i)
}

fn rib(first: RibField, middle: RibField, last: RibField) -> Rib {
    Rib { first, middle, last }
}

/// A heap with the three singletons.
fn fresh() -> RibHeap {
    let mut heap = RibHeap::with_capacity(8);
    for _ in 0..3 {
        heap.push_rib(rib(n(0), n(0), n(5)));
    }
    heap
}

#[test]
fn a_new_heap_is_empty() {
    let heap = RibHeap::with_capacity(10);
    assert_eq!(heap.len(), 0);
    assert!(heap.capacity() >= 10);
    assert!(!heap.is_wf());
}

#[test]
fn a_heap_has_room_for_the_ribs_it_holds() {
    let mut heap = RibHeap::with_capacity(0);
    assert!(heap.capacity() >= heap.len());
    for i in 0..100 {
        heap.push_rib(rib(n(i), n(0), n(0)));
        assert!(heap.capacity() >= heap.len());
    }
    assert_eq!(heap.len(), 100);
    assert!(heap.capacity() >= 100);
}

#[test]
fn push_get_and_set() {
    let mut heap = fresh();
    assert_eq!(heap.len(), 3);
    let i = heap.push_rib(rib(n(1), r(2), n(0)));
    assert_eq!(i, 3);
    assert_eq!(heap.len(), 4);
    assert_eq!(heap.get(&3), rib(n(1), r(2), n(0)));
    assert_eq!(r(3).get_rib(&heap), rib(n(1), r(2), n(0)));
    heap.set(&3, rib(n(9), r(3), n(0)));
    assert_eq!(heap.get(&3), rib(n(9), r(3), n(0)));
    assert_eq!(heap.get(&0), rib(n(0), n(0), n(5)));
    assert_eq!(heap.len(), 4);
}

#[test]
fn a_heap_is_well_formed_without_dangling_references() {
    let mut heap = fresh();
    assert!(heap.is_wf());
    heap.push_rib(rib(r(3), r(0), n(0)));
    assert!(heap.is_wf());
    heap.push_rib(rib(n(0), r(5), n(0)));
    assert!(!heap.is_wf());
    heap.push_rib(rib(n(0), n(0), n(0)));
    assert!(heap.is_wf());
    assert!(field_in(&r(4), 5));
    assert!(!field_in(&r(5), 5));
    assert!(field_in(&n(99), 0));
}

#[test]
fn the_heap_renders_line_by_line() {
    let mut heap = RibHeap::with_capacity(2);
    heap.push_rib(rib(n(0), n(0), n(5)));
    heap.push_rib(rib(r(0), n(-2), r(1)));
    assert_eq!(heap.text(), "0:[f:n0,m:n0,l:n5]\n1:[f:r0,m:n-2,l:r1]\n");
    assert_eq!(RibHeap::with_capacity(0).text(), "");
}

#[test]
fn push_and_pop_are_inverse() {
    let mut heap = fresh();
    let mut stack = 2;
    push_stack(n(10), &mut stack, &mut heap);
    assert_eq!(stack, 3);
    assert_eq!(heap.get(&3), rib(n(10), r(2), n(0)));
    push_stack(r(1), &mut stack, &mut heap);
    assert_eq!(stack, 4);
    assert!(has_next(stack, &heap));
    assert_eq!(pop_stack(&mut stack, &heap), r(1));
    assert_eq!(stack, 3);
    assert_eq!(pop_stack(&mut stack, &heap), n(10));
    assert_eq!(stack, 2);
    assert!(!has_next(stack, &heap));
    assert!(!has_next(77, &heap));
    assert_eq!(heap.len(), 5);
}

/// The list of the numbers 10, 20, 30 from index 3, ending in `()`.
fn three() -> (RibHeap, usize) {
    let mut heap = fresh();
    let mut list = 2;
    for v in [30, 20, 10] {
        push_stack(n(v), &mut list, &mut heap);
    }
    (heap, list)
}

#[test]
fn list_tail_walks_along_middle() {
    let (heap, list) = three();
    assert_eq!(list, 5);
    assert_eq!(list_tail(&list, 0, &heap), 5);
    assert_eq!(list_tail(&list, 1, &heap), 4);
    assert_eq!(list_tail(&list, 2, &heap), 3);
    assert_eq!(list_tail(&list, 3, &heap), 2);
    assert_eq!(find_tail(list, 3, &heap), Some(2));
    assert_eq!(find_tail(list, 4, &heap), None);
    assert_eq!(find_tail(99, 0, &heap), Some(99));
    assert_eq!(find_tail(99, 1, &heap), None);
}

#[test]
fn operands_name_slots_and_cells() {
    let (heap, list) = three();
    assert_eq!(get_opnd_ref(&n(0), &list, &heap), 5);
    assert_eq!(get_opnd_ref(&n(2), &list, &heap), 3);
    assert_eq!(get_opnd_ref(&r(4), &list, &heap), 4);
    assert_eq!(get_opnd(&n(1), &list, &heap), rib(n(20), r(3), n(0)));
    assert_eq!(get_opnd(&r(1), &list, &heap), rib(n(0), n(0), n(5)));
    assert_eq!(find_opnd(&n(1), list, &heap), Some(4));
    assert_eq!(find_opnd(&n(-1), list, &heap), None);
    assert_eq!(find_opnd(&n(4), list, &heap), None);
    assert_eq!(find_opnd(&r(6), list, &heap), None);
    assert_eq!(find_opnd(&r(5), list, &heap), Some(5));
}

#[test]
fn symbols_are_found_by_their_depth() {
    let mut heap = fresh();
    let a = heap.push_rib(rib(r(0), r(2), n(2)));
    let b = heap.push_rib(rib(r(0), r(2), n(2)));
    let mut table = 2;
    push_stack(r(a), &mut table, &mut heap);
    push_stack(r(b), &mut table, &mut heap);
    assert_eq!(symbol_ref(0, &table, &heap), b);
    assert_eq!(symbol_ref(1, &table, &heap), a);
    assert_eq!(find_symbol(1, table, &heap), Some(a));
    assert_eq!(find_symbol(2, table, &heap), None);
    assert_eq!(find_symbol(3, table, &heap), None);
}

#[test]
fn set_global_binds_the_head_and_moves_on() {
    let mut heap = fresh();
    let a = heap.push_rib(rib(r(0), r(2), n(2)));
    let b = heap.push_rib(rib(r(0), r(2), n(2)));
    let mut table = 2;
    push_stack(r(a), &mut table, &mut heap);
    let rest = table;
    push_stack(r(b), &mut table, &mut heap);
    set_global(1, &mut table, &mut heap);
    assert_eq!(table, rest);
    assert_eq!(heap.get(&b), rib(r(1), r(2), n(2)));
    assert_eq!(heap.get(&a), rib(r(0), r(2), n(2)));
    set_global(2, &mut table, &mut heap);
    assert_eq!(table, 2);
    assert_eq!(heap.get(&a), rib(r(2), r(2), n(2)));
}

#[test]
fn the_continuation_is_the_first_cell_with_a_reference_last() {
    let mut heap = fresh();
    let halt = heap.push_rib(rib(n(5), n(0), n(0)));
    let frame = heap.push_rib(rib(n(0), n(0), r(halt)));
    let mut stack = frame;
    assert_eq!(get_cont(&stack, &heap), frame);
    push_stack(n(1), &mut stack, &mut heap);
    push_stack(n(2), &mut stack, &mut heap);
    assert_eq!(get_cont(&stack, &heap), frame);
    assert_eq!(find_cont(stack, &heap), Some(frame));
    // A list that ends in `()` has no continuation.
    let (plain, list) = three();
    assert_eq!(find_cont(list, &plain), None);
    assert_eq!(find_cont(1000, &plain), None);
}

#[test]
fn a_stack_that_runs_in_a_circle_has_no_continuation() {
    let mut heap = fresh();
    let a = heap.push_rib(rib(n(1), r(4), n(0)));
    let b = heap.push_rib(rib(n(2), r(3), n(0)));
    assert_eq!(find_cont(a, &heap), None);
    assert_eq!(find_cont(b, &heap), None);
}

#[test]
fn a_continuation_is_found_at_the_end_of_the_longest_walk() {
    // Every rib of the heap lies on the walk.
    let mut heap = RibHeap::with_capacity(4);
    heap.push_rib(rib(n(0), n(0), r(0)));
    heap.push_rib(rib(n(0), r(0), n(0)));
    heap.push_rib(rib(n(0), r(1), n(0)));
    heap.push_rib(rib(n(0), r(2), n(0)));
    assert_eq!(find_cont(3, &heap), Some(0));
}

#[test]
fn arg2_drops_the_value_below_the_top() {
    let (mut heap, mut stack) = three();
    rvm_arg2(&mut stack, &mut heap);
    assert_eq!(stack, 6);
    assert_eq!(heap.get(&6), rib(n(10), r(3), n(0)));
    assert_eq!(pop_stack(&mut stack, &heap), n(10));
    assert_eq!(pop_stack(&mut stack, &heap), n(30));
    assert_eq!(stack, 2);
}

#[test]
fn close_captures_the_stack_below() {
    let mut heap = fresh();
    let code = heap.push_rib(rib(n(2), n(0), n(0)));
    let procedure = heap.push_rib(rib(r(code), r(2), n(1)));
    let mut stack = 2;
    push_stack(n(42), &mut stack, &mut heap);
    let below = stack;
    push_stack(r(procedure), &mut stack, &mut heap);
    rvm_close(&mut stack, &mut heap);
    let closure = match pop_stack(&mut stack, &heap) {
        RibField::Rib(c) => c,
        RibField::Number(_) => panic!("a closure is a rib"),
    };
    assert_eq!(stack, below);
    assert_eq!(heap.get(&closure), rib(r(code), r(below), n(1)));
}
