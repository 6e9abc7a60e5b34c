use rvm::error::VmError;
use rvm::field::{Rib, RibField};
use rvm::heap::RibHeap;
use rvm::machine::Machine;
use std::collections::HashMap;

fn n(v: i32) -> RibField {
    RibField::Number(v)
}

fn r(i: usize) -> RibField {
    RibField::Rib(i)
}

fn rib(first: RibField, middle: RibField, last: RibField) -> Rib {
    Rib { first, middle, last }
}

fn special() -> Rib {
    rib(n(0), n(0), n(5))
}

fn heap_of(ribs: &[Rib]) -> RibHeap {
    let mut heap = RibHeap::with_capacity(ribs.len());
    for rib in ribs {
        heap.push_rib(*rib);
    }
    heap
}

/// Singletons, two dead ribs and three live ones, one of them in a circle
/// with itself.
fn sample() -> RibHeap {
    heap_of(&[
        special(),
        special(),
        special(),
        rib(n(7), r(4), n(0)),
        rib(n(1), r(5), n(0)),
        rib(n(2), r(2), n(0)),
        rib(r(6), r(3), n(0)),
        rib(r(4), r(7), n(0)),
    ])
}

#[test]
fn a_collection_keeps_what_the_roots_reach() {
    let mut heap = sample();
    let (mut stack, mut pc, mut symtbl) = (7, 5, 2);
    let live = heap.garbage_collect(&mut stack, &mut pc, &mut symtbl);
    assert_eq!(live, 6);
    assert_eq!(heap.len(), 6);
    assert_eq!((stack, pc, symtbl), (4, 3, 2));
    assert_eq!(
        heap.heap,
        vec![
            special(),
            special(),
            special(),
            rib(n(2), r(2), n(0)),
            rib(r(5), r(4), n(0)),
            rib(n(1), r(3), n(0)),
        ]
    );
    assert!(heap.is_wf());
}

#[test]
fn a_second_collection_changes_nothing() {
    let mut heap = sample();
    let (mut stack, mut pc, mut symtbl) = (7, 5, 2);
    let first = heap.garbage_collect(&mut stack, &mut pc, &mut symtbl);
    let ribs = heap.heap.clone();
    let roots = (stack, pc, symtbl);
    let second = heap.garbage_collect(&mut stack, &mut pc, &mut symtbl);
    assert_eq!(first, second);
    assert_eq!(heap.len(), 6);
    assert_eq!(heap.heap, ribs);
    assert_eq!((stack, pc, symtbl), roots);
}

/// The ribs that the roots reach, counted by a walk of its own. The
/// singletons count, and their fields are not followed.
fn count_live(heap: &RibHeap, roots: &[usize]) -> usize {
    let mut seen = vec![false; heap.len()];
    for i in 0..3 {
        seen[i] = true;
    }
    let mut work: Vec<usize> = roots.iter().copied().filter(|&i| i < heap.len()).collect();
    while let Some(i) = work.pop() {
        if seen[i] {
            continue;
        }
        seen[i] = true;
        let rib = heap.get(&i);
        for f in [rib.first, rib.middle, rib.last] {
            if let RibField::Rib(j) = f {
                work.push(j);
            }
        }
    }
    seen.iter().filter(|&&s| s).count()
}

#[test]
fn the_new_heap_holds_as_many_ribs_as_were_live() {
    let cases = [(7, 5, 2), (3, 3, 3), (6, 0, 1), (4, 100, 2), (0, 1, 2), (5, 6, 7)];
    for (stack, pc, symtbl) in cases {
        let mut heap = sample();
        let live = count_live(&heap, &[stack, pc, symtbl]);
        let (mut s, mut p, mut t) = (stack, pc, symtbl);
        assert_eq!(heap.garbage_collect(&mut s, &mut p, &mut t), live);
        assert_eq!(heap.len(), live);
        assert_eq!(count_live(&heap, &[s, p, t]), live);
    }
}

#[test]
fn the_singletons_keep_their_places_and_their_fields() {
    let mut heap = sample();
    heap.set(&1, rib(n(9), n(8), n(7)));
    let (mut stack, mut pc, mut symtbl) = (1, 0, 2);
    let live = heap.garbage_collect(&mut stack, &mut pc, &mut symtbl);
    assert_eq!(live, 3);
    assert_eq!((stack, pc, symtbl), (1, 0, 2));
    assert_eq!(heap.heap, vec![special(), rib(n(9), n(8), n(7)), special()]);
}

#[test]
fn a_root_outside_the_heap_is_left_alone() {
    let mut heap = sample();
    let (mut stack, mut pc, mut symtbl) = (100, 8, 5);
    let live = heap.garbage_collect(&mut stack, &mut pc, &mut symtbl);
    assert_eq!(live, 4);
    assert_eq!((stack, pc, symtbl), (100, 8, 3));
    assert_eq!(heap.get(&3), rib(n(2), r(2), n(0)));
}

#[test]
fn the_fields_of_a_singleton_are_not_followed() {
    let mut heap = sample();
    heap.set(&0, rib(r(7), n(0), n(5)));
    let (mut stack, mut pc, mut symtbl) = (0, 0, 0);
    let live = heap.garbage_collect(&mut stack, &mut pc, &mut symtbl);
    assert_eq!(live, 3);
    // The reference is copied as it is, and now points past the end.
    assert_eq!(heap.get(&0), rib(r(7), n(0), n(5)));
    assert!(!heap.is_wf());
}

#[test]
fn scan_for_copiable_rib_refs_adds_what_is_not_forwarded() {
    let mut forwarded = HashMap::new();
    forwarded.insert(4, 9);
    let mut list = vec![1];
    RibHeap::scan_for_copiable_rib_refs(&rib(r(3), r(4), r(5)), &mut list, &forwarded);
    assert_eq!(list, vec![1, 3, 5]);
    RibHeap::scan_for_copiable_rib_refs(&rib(n(3), r(3), r(3)), &mut list, &forwarded);
    assert_eq!(list, vec![1, 3, 5, 3, 3]);
    RibHeap::scan_for_copiable_rib_refs(&rib(n(3), n(4), r(4)), &mut list, &forwarded);
    assert_eq!(list, vec![1, 3, 5, 3, 3]);
}

#[test]
fn scan_and_sweep_copies_from_one_root() {
    let heap = sample();
    let mut new_heap = vec![special(), special(), special()];
    let mut forwarded = HashMap::new();
    for i in 0..3 {
        forwarded.insert(i, i);
    }
    let mut start = 7;
    heap.scan_and_sweep(&mut start, &mut new_heap, &mut forwarded);
    assert_eq!(start, 3);
    // The ribs are copied as they are: their references are still the old
    // ones.
    assert_eq!(new_heap[3..], [rib(r(4), r(7), n(0)), rib(n(1), r(5), n(0)), rib(n(2), r(2), n(0))]);
    assert_eq!(forwarded.len(), 6);
    assert_eq!((forwarded[&7], forwarded[&4], forwarded[&5]), (3, 4, 5));
    // A root that is forwarded already is only rewritten.
    let mut again = 5;
    heap.scan_and_sweep(&mut again, &mut new_heap, &mut forwarded);
    assert_eq!(again, 5);
    assert_eq!(new_heap.len(), 6);
}

fn machine(heap: RibHeap, stack: usize, pc: RibField, symtbl: usize) -> Machine {
    let live = heap.len();
    Machine { heap, stack, pc, symtbl, live }
}

#[test]
fn a_machine_collects_with_its_three_roots() {
    let mut vm = machine(sample(), 7, r(5), 2);
    assert!(vm.is_wf());
    assert_eq!(vm.collect(), Ok(()));
    assert_eq!((vm.stack, vm.pc, vm.symtbl, vm.live), (4, r(3), 2, 6));
    assert_eq!(vm.heap.len(), 6);
    assert!(vm.is_wf());
    assert!(!vm.is_crowded());
}

#[test]
fn a_machine_whose_program_counter_is_an_integer_cannot_collect() {
    let mut vm = machine(sample(), 7, n(5), 2);
    assert_eq!(vm.collect(), Err(VmError::Type));
}

#[test]
fn a_reference_in_a_singleton_may_be_left_dangling() {
    let mut heap = sample();
    heap.set(&2, rib(r(7), n(0), n(5)));
    let mut vm = machine(heap, 2, r(2), 2);
    assert!(vm.is_wf());
    assert_eq!(vm.collect(), Ok(()));
    assert_eq!(vm.heap.len(), 3);
    assert_eq!(vm.heap.get(&2), rib(r(7), n(0), n(5)));
    assert!(!vm.is_wf());
    // The machine goes on: the reference is an error only where it is
    // followed.
    assert_eq!(vm.collect(), Ok(()));
    // With the rib still live the reference stays in the heap.
    let mut heap = sample();
    heap.set(&2, rib(r(4), n(0), n(5)));
    let mut vm = machine(heap, 7, r(5), 2);
    assert_eq!(vm.collect(), Ok(()));
    assert!(vm.is_wf());
}

#[test]
fn a_live_rib_with_a_dangling_reference_cannot_be_collected() {
    let mut heap = sample();
    heap.set(&4, rib(n(1), r(99), n(0)));
    let before = heap.heap.clone();
    let (mut stack, mut pc, mut symtbl) = (7, 5, 2);
    assert_eq!(heap.try_collect(&mut stack, &mut pc, &mut symtbl), Err(VmError::Type));
    assert_eq!(heap.heap, before);
    // The same rib, dead, is no hindrance.
    let (mut stack, mut pc, mut symtbl) = (5, 5, 2);
    assert_eq!(heap.try_collect(&mut stack, &mut pc, &mut symtbl), Ok(4));
    assert_eq!((stack, pc, symtbl), (3, 3, 2));

    let mut heap = sample();
    heap.set(&4, rib(n(1), r(99), n(0)));
    let mut vm = machine(heap, 7, r(5), 2);
    assert!(!vm.is_wf());
    assert_eq!(vm.collect(), Err(VmError::Type));
    assert_eq!(vm.heap.heap, before);
    assert_eq!((vm.stack, vm.pc, vm.symtbl), (7, r(5), 2));
}

#[test]
fn a_heap_without_the_singletons_cannot_be_collected() {
    let mut vm = machine(heap_of(&[special(), special()]), 0, r(1), 0);
    assert_eq!(vm.collect(), Err(VmError::Type));
    assert_eq!(vm.heap.len(), 2);
}

#[test]
fn try_sweep_stops_at_a_dangling_reference() {
    let mut heap = sample();
    heap.set(&5, rib(n(2), r(8), n(0)));
    let mut new_heap = vec![special(), special(), special()];
    let mut forwarded = HashMap::new();
    for i in 0..3 {
        forwarded.insert(i, i);
    }
    let mut start = 7;
    assert_eq!(heap.try_sweep(&mut start, &mut new_heap, &mut forwarded), Err(VmError::Type));
    let heap = sample();
    let mut new_heap = vec![special(), special(), special()];
    let mut forwarded = HashMap::new();
    for i in 0..3 {
        forwarded.insert(i, i);
    }
    let mut start = 7;
    assert_eq!(heap.try_sweep(&mut start, &mut new_heap, &mut forwarded), Ok(()));
    assert_eq!((start, new_heap.len()), (3, 6));
}

#[test]
fn a_heap_is_crowded_when_it_has_more_than_doubled() {
    let mut vm = machine(sample(), 7, r(5), 2);
    vm.live = 4;
    assert!(!vm.is_crowded());
    vm.live = 3;
    assert!(vm.is_crowded());
    vm.live = usize::MAX;
    assert!(!vm.is_crowded());
}
