use rvm::decode::decode;
use rvm::error::VmError;
use rvm::field::{Rib, RibField};
use rvm::machine::Machine;
use rvm::prims::{apply_binary, Binary};
use rvm::reader::{decode_char_to_u32, get_byte, get_code, get_int, next_char, read_int};
use rvm::show::show;
use rvm::stack::symbol_ref;

fn n(v: i32) -> RibField {
    RibField::Number(v)
}

fn r(i: usize) -> RibField {
    RibField::Rib(i)
}

#[test]
fn decode_char_gives_the_code_point() {
    assert_eq!(decode_char_to_u32(Some('#')), 35);
    assert_eq!(decode_char_to_u32(Some('\u{e9}')), 233);
}

#[test]
fn next_char_stops_at_the_end() {
    let text = b"ab";
    let mut pos = 0;
    assert_eq!(next_char(text, &mut pos), Some('a'));
    assert_eq!(next_char(text, &mut pos), Some('b'));
    assert_eq!(pos, 2);
    assert_eq!(next_char(text, &mut pos), None);
    assert_eq!(pos, 2);
}

#[test]
fn get_byte_reads_and_moves_on() {
    let text = b";y";
    let mut pos = 0;
    assert_eq!(get_byte(text, &mut pos), 59);
    assert_eq!(pos, 1);
    assert_eq!(get_byte(text, &mut pos), 121);
    assert_eq!(pos, 2);
}

#[test]
fn get_code_counts_from_the_number_sign() {
    let text = b"#$~ !\"";
    let mut pos = 0;
    assert_eq!(get_code(text, &mut pos), 0);
    assert_eq!(get_code(text, &mut pos), 1);
    assert_eq!(get_code(text, &mut pos), 91);
    // Space, exclamation mark and double quote lie below `#`.
    assert_eq!(get_code(text, &mut pos), 57);
    assert_eq!(get_code(text, &mut pos), 57);
    assert_eq!(get_code(text, &mut pos), 57);
    assert_eq!(pos, 6);
}

#[test]
fn get_int_reads_base_46_with_a_continuation() {
    let mut pos = 0;
    assert_eq!(get_int(0, b"6", &mut pos), 19);
    assert_eq!(pos, 1);
    // `R` is the digit 1 with more to follow, `6` the last digit 19.
    let mut pos = 0;
    assert_eq!(get_int(0, b"R6", &mut pos), 65);
    assert_eq!(pos, 2);
    // The digits read so far count: 46 * 2 + 3.
    let mut pos = 0;
    assert_eq!(get_int(2, b"&", &mut pos), 95);
    // 46 * (46 * 1 + 45) + 45, three digits.
    let mut pos = 1;
    assert_eq!(get_int(0, b"xR~P!", &mut pos), 46 * (46 * 1 + 45) + 45);
    assert_eq!(pos, 4);
}

#[test]
fn read_int_fails_at_the_end_and_on_overflow() {
    let mut pos = 0;
    assert_eq!(read_int(0, b"R6", &mut pos), Ok(65));
    assert_eq!(pos, 2);
    let mut pos = 0;
    assert_eq!(read_int(0, b"", &mut pos), Err(VmError::UnexpectedEnd));
    let mut pos = 0;
    assert_eq!(read_int(0, b"RR", &mut pos), Err(VmError::UnexpectedEnd));
    let mut pos = 0;
    assert_eq!(read_int(0, b"zzzzzzzzzz#", &mut pos), Err(VmError::Overflow));
    let mut pos = 0;
    assert_eq!(read_int(i32::MAX, b"#", &mut pos), Err(VmError::Overflow));
    // The largest machine integer, digit by digit.
    let mut digits = Vec::new();
    let mut v = i32::MAX;
    digits.push((v % 46) as u8 + 35);
    v /= 46;
    while v > 0 {
        digits.push((v % 46) as u8 + 46 + 35);
        v /= 46;
    }
    digits.reverse();
    let mut pos = 0;
    assert_eq!(read_int(0, &digits, &mut pos), Ok(i32::MAX));
}

#[test]
fn texts_that_end_too_early() {
    assert_eq!(decode(b"").err(), Some(VmError::UnexpectedEnd));
    assert_eq!(decode(b"#").err(), Some(VmError::UnexpectedEnd));
    assert_eq!(decode(b"#abc").err(), Some(VmError::UnexpectedEnd));
    assert_eq!(decode(b"#;").err(), Some(VmError::UnexpectedEnd));
    assert_eq!(decode(b"(;'lk").err(), Some(VmError::UnexpectedEnd));
    assert_eq!(decode(b"(;'v").err(), Some(VmError::UnexpectedEnd));
}

#[test]
fn texts_that_break_the_rules() {
    // A procedure is closed while the build stack is empty.
    assert_eq!(decode(b"#;y").err(), Some(VmError::Type));
    // A conditional pops the empty build stack.
    assert_eq!(decode(b"#;~").err(), Some(VmError::Type));
    // The table has no fifth symbol.
    assert_eq!(decode(b"#;'").err(), Some(VmError::Type));
    // The table has fewer than four symbols to bind.
    assert_eq!(decode(b"#;#ky").err(), Some(VmError::Type));
    // A character beyond the six forms.
    assert_eq!(decode(b"#;\x80").err(), Some(VmError::UnknownOpcode(6)));
    assert_eq!(decode(b"#;\xff").err(), Some(VmError::UnknownOpcode(6)));
    // An integer too long for the machine.
    assert_eq!(decode(b"(;'vzzzzzzzzzz#y").err(), Some(VmError::Overflow));
}

#[test]
fn the_singletons_come_first() {
    let vm = decode(b"(;'lk\\':nlkly").expect("the text decodes");
    let special = Rib { first: n(0), middle: n(0), last: n(5) };
    assert_eq!(vm.heap.get(&0), special);
    assert_eq!(vm.heap.get(&1), special);
    assert_eq!(vm.heap.get(&2), special);
    assert!(vm.is_wf());
    assert_eq!(vm.live, vm.heap.len());
}

#[test]
fn the_stack_starts_as_the_primordial_continuation() {
    let vm = decode(b"(;'lk\\':nlkly").expect("the text decodes");
    let frame = vm.heap.get(&vm.stack);
    assert_eq!((frame.first, frame.middle), (n(0), n(0)));
    let halt = frame.last.get_rib(&vm.heap);
    assert_eq!(halt, Rib { first: n(5), middle: n(0), last: n(0) });
    assert_eq!(rvm::stack::find_cont(vm.stack, &vm.heap), Some(vm.stack));
}

#[test]
fn names_and_instructions_are_decoded() {
    // Five names, written backwards as the text has them; the last one
    // named is symbol 0.
    let vm = decode(b"#a,b,c,d,bir;'lk\\':nlkly").expect("the text decodes");
    assert_eq!(
        show(&vm.pc, &vm.heap),
        "[3,1,[3,0,[3,1,[3,3,[0,rib,[1,a,[3,0,[3,1,(0 . a)]]]]]]]]"
    );
    // The first four symbols are bound; the table is left at the fifth.
    assert_eq!(show(&r(vm.symtbl), &vm.heap), "(a)");
}

#[test]
fn the_first_four_symbols_are_bound() {
    let vm = decode(b"#a,b,c,d,bir;'lk\\':nlkly").expect("the text decodes");
    // `a` is the first symbol named: its cell is the last of the table.
    let a = vm.heap.get(&vm.symtbl);
    assert_eq!(a.middle, r(2));
    // The instruction that calls `rib` refers to the symbol bound to the
    // procedure of primitive 0.
    let mut instr = vm.pc.get_rib(&vm.heap);
    while instr.first != n(0) {
        instr = instr.last.get_rib(&vm.heap);
    }
    let symbol = instr.middle.get_rib(&vm.heap);
    assert_eq!(symbol.last, n(2));
    let procedure = symbol.first.get_rib(&vm.heap);
    assert_eq!((procedure.first, procedure.last), (n(0), n(1)));
    assert_eq!(show(&symbol.first, &vm.heap), "#<primitive 0>");
}

#[test]
fn a_short_operand_of_get_is_a_stack_slot() {
    // `get 2`, then the body of the smallest program.
    let vm = decode(b"(;'lk\\':nlkl`y").expect("the text decodes");
    let first = vm.pc.get_rib(&vm.heap);
    assert_eq!((first.first, first.middle), (n(2), n(2)));
}

#[test]
fn a_conditional_takes_its_branch_from_the_build_stack() {
    // In running order: `const 0`, then `if` with the branches `const 1;
    // jump 4` and `const 2; jump 4`. The text has the second branch first,
    // then the first branch, then the `if` that pops it.
    let vm = decode(b"(;'m'l~ky").expect("the text decodes");
    assert_eq!(show(&vm.pc, &vm.heap), "[3,0,[4,[3,1,(0 . #<symbol \"\">)],[3,2,(0 . #<symbol \"\">)]]]");
}

#[test]
fn decoding_twice_gives_the_same_machine() {
    let text = b");'u?>vD?>vRD?>vRA?>vRA?>vR:?>vR=!(:lkm!':lkv6y";
    let a = decode(text).expect("the text decodes");
    let b = decode(text).expect("the text decodes");
    assert_eq!(a.heap.heap, b.heap.heap);
    assert_eq!((a.stack, a.pc, a.symtbl, a.live), (b.stack, b.pc, b.symtbl, b.live));
    let c = Machine::load(text).expect("the text decodes");
    let d = Machine::load(text).expect("the text decodes");
    assert_eq!(c.heap.heap, d.heap.heap);
    assert_eq!((c.stack, c.pc, c.symtbl, c.live), (d.stack, d.pc, d.symtbl, d.live));
}

#[test]
fn two_symbols_of_one_name_are_two_symbols() {
    let mut vm = decode(b"#same,same,a,b,c,bir;'lk\\':nlkly").expect("the text decodes");
    // The table is left at the fifth symbol: the two of the same name.
    let first = symbol_ref(0, &vm.symtbl, &vm.heap);
    let second = symbol_ref(1, &vm.symtbl, &vm.heap);
    assert_eq!(show(&r(first), &vm.heap), "emas");
    assert_eq!(show(&r(second), &vm.heap), "emas");
    assert_ne!(first, second);
    assert_eq!(apply_binary(Binary::Eqv, r(first), r(second), &mut vm.heap), Ok(r(0)));
    assert_eq!(apply_binary(Binary::Eqv, r(first), r(first), &mut vm.heap), Ok(r(1)));
}
