use rvm::field::{Rib, RibField};
use rvm::heap::RibHeap;
use rvm::show::{push_shown, show, show_stack, SHOW_DEPTH};
use rvm::stack::push_stack;
use rvm::text::{push_decimal, push_digits};

fn n(v: i32) -> RibField {
    RibField::Number(v)
}

fn r(i: usize) -> RibField {
    RibField::Rib(i)
}

fn rib(first: RibField, middle: RibField, last: RibField) -> Rib {
    Rib { first, middle, last }
}

fn fresh() -> RibHeap {
    let mut heap = RibHeap::with_capacity(16);
    for _ in 0..3 {
        heap.push_rib(rib(n(0), n(0), n(5)));
    }
    heap
}

/// The list of the values, ending in `tail`.
fn list(heap: &mut RibHeap, values: &[RibField], tail: RibField) -> RibField {
    let mut rest = tail;
    for v in values.iter().rev() {
        rest = r(heap.push_rib(rib(*v, rest, n(0))));
    }
    rest
}

/// The string of the characters.
fn string(heap: &mut RibHeap, text: &str) -> RibField {
    let chars: Vec<RibField> = text.chars().map(|c| n(c as i32)).collect();
    let first = list(heap, &chars, r(2));
    r(heap.push_rib(rib(first, n(chars.len() as i32), n(3))))
}

#[test]
fn digits_and_decimals() {
    let mut s = String::from("x");
    push_digits(0, &mut s);
    push_digits(9, &mut s);
    push_digits(10, &mut s);
    push_digits(u64::MAX, &mut s);
    assert_eq!(s, "x091018446744073709551615");
    let mut s = String::new();
    push_decimal(-1, &mut s);
    push_decimal(0, &mut s);
    push_decimal(i32::MIN, &mut s);
    push_decimal(i32::MAX, &mut s);
    assert_eq!(s, "-10-21474836482147483647");
}

#[test]
fn integers_are_shown_in_decimal() {
    let heap = fresh();
    assert_eq!(show(&n(42), &heap), "42");
    assert_eq!(show(&n(-7), &heap), "-7");
    assert_eq!(show(&n(0), &heap), "0");
}

#[test]
fn the_singletons_are_shown_by_name() {
    let mut heap = fresh();
    assert_eq!(show(&r(0), &heap), "#f");
    assert_eq!(show(&r(1), &heap), "#t");
    assert_eq!(show(&r(2), &heap), "()");
    // A rib with the singletons' tag that is none of them.
    let other = heap.push_rib(rib(n(0), n(0), n(5)));
    assert_eq!(show(&r(other), &heap), "[0,0,5]");
}

#[test]
fn lists_are_shown_in_parentheses() {
    let mut heap = fresh();
    let one = list(&mut heap, &[n(1)], r(2));
    assert_eq!(show(&one, &heap), "(1)");
    let three = list(&mut heap, &[n(1), r(1), n(3)], r(2));
    assert_eq!(show(&three, &heap), "(1 #t 3)");
    let nested = list(&mut heap, &[three, one], r(2));
    assert_eq!(show(&nested, &heap), "((1 #t 3) (1))");
    let dotted = list(&mut heap, &[n(1)], n(2));
    assert_eq!(show(&dotted, &heap), "(1 . 2)");
    let improper = list(&mut heap, &[n(1), n(2)], r(0));
    assert_eq!(show(&improper, &heap), "(1 2 . #f)");
}

#[test]
fn long_lists_are_cut_after_five_elements() {
    let mut heap = fresh();
    let five = list(&mut heap, &[n(1), n(2), n(3), n(4), n(5)], r(2));
    assert_eq!(show(&five, &heap), "(1 2 3 4 5)");
    let six = list(&mut heap, &[n(1), n(2), n(3), n(4), n(5), n(6)], r(2));
    assert_eq!(show(&six, &heap), "(1 2 3 4 5 ...)");
    let many = list(&mut heap, &[n(0); 40], n(9));
    assert_eq!(show(&many, &heap), "(0 0 0 0 0 ...)");
    let dotted = list(&mut heap, &[n(1), n(2), n(3), n(4), n(5)], n(6));
    assert_eq!(show(&dotted, &heap), "(1 2 3 4 5 . 6)");
}

#[test]
fn strings_are_quoted_and_escaped() {
    let mut heap = fresh();
    let plain = string(&mut heap, "hello");
    assert_eq!(show(&plain, &heap), "\"hello\"");
    let empty = string(&mut heap, "");
    assert_eq!(show(&empty, &heap), "\"\"");
    let special = string(&mut heap, "a\nb\rc\td\\e\"f");
    assert_eq!(show(&special, &heap), "\"a\\nb\\rc\\td\\\\e\\\"f\"");
    let wide = string(&mut heap, "\u{e9}\u{1F600}");
    assert_eq!(show(&wide, &heap), "\"\u{e9}\u{1F600}\"");
}

#[test]
fn what_is_no_character_is_shown_as_the_replacement_character() {
    let mut heap = fresh();
    let chars = list(&mut heap, &[n(65), n(-1), n(0xD800), r(1), n(66)], r(2));
    let odd = r(heap.push_rib(rib(chars, n(5), n(3))));
    assert_eq!(show(&odd, &heap), "\"A\u{FFFD}\u{FFFD}\u{FFFD}B\"");
}

#[test]
fn symbols_are_shown_by_their_name() {
    let mut heap = fresh();
    let name = string(&mut heap, "foo");
    let symbol = r(heap.push_rib(rib(r(0), name, n(2))));
    assert_eq!(show(&symbol, &heap), "foo");
    let quoted = string(&mut heap, "a\"b");
    let symbol = r(heap.push_rib(rib(r(0), quoted, n(2))));
    assert_eq!(show(&symbol, &heap), "a\"b");
    let empty = string(&mut heap, "");
    let anonymous = r(heap.push_rib(rib(r(0), empty, n(2))));
    assert_eq!(show(&anonymous, &heap), "#<symbol \"\">");
    let nameless = r(heap.push_rib(rib(r(0), n(7), n(2))));
    assert_eq!(show(&nameless, &heap), "#<symbol 7>");
    let listed = list(&mut heap, &[n(1)], r(2));
    let odd = r(heap.push_rib(rib(r(0), listed, n(2))));
    assert_eq!(show(&odd, &heap), "#<symbol (1)>");
}

#[test]
fn procedures_and_primitives() {
    let mut heap = fresh();
    let code = heap.push_rib(rib(n(4), n(0), n(0)));
    let procedure = r(heap.push_rib(rib(r(code), r(2), n(1))));
    assert_eq!(show(&procedure, &heap), "#<procedure nparams=4>");
    let primitive = r(heap.push_rib(rib(n(19), n(0), n(1))));
    assert_eq!(show(&primitive, &heap), "#<primitive 19>");
    let code = heap.push_rib(rib(r(0), n(0), n(0)));
    let odd = r(heap.push_rib(rib(r(code), r(2), n(1))));
    assert_eq!(show(&odd, &heap), "#<procedure nparams=?>");
}

#[test]
fn vectors_and_other_ribs() {
    let mut heap = fresh();
    let elems = list(&mut heap, &[n(1), n(2)], r(2));
    let vector = r(heap.push_rib(rib(elems, n(2), n(4))));
    assert_eq!(show(&vector, &heap), "#(1 2)");
    let other = r(heap.push_rib(rib(n(1), r(1), n(9))));
    assert_eq!(show(&other, &heap), "[1,#t,9]");
    let instr = r(heap.push_rib(rib(n(3), n(65), other)));
    assert_eq!(show(&instr, &heap), "[3,65,[1,#t,9]]");
    let negative = r(heap.push_rib(rib(n(1), n(2), n(-1))));
    assert_eq!(show(&negative, &heap), "[1,2,-1]");
}

#[test]
fn references_are_followed_to_a_depth() {
    let mut heap = fresh();
    let me = heap.len();
    heap.push_rib(rib(r(me), r(2), n(0)));
    let expected = format!("{}...{}", "(".repeat(SHOW_DEPTH), ")".repeat(SHOW_DEPTH));
    assert_eq!(show(&r(me), &heap), expected);
    let mut s = String::from("> ");
    push_shown(&r(me), &heap, 2, &mut s);
    assert_eq!(s, "> ((...))");
    let mut s = String::new();
    push_shown(&r(me), &heap, 0, &mut s);
    assert_eq!(s, "...");
    let mut s = String::new();
    push_shown(&n(5), &heap, 0, &mut s);
    assert_eq!(s, "5");
    // A list that runs in a circle is cut like a long list.
    let a = heap.len();
    heap.push_rib(rib(n(1), r(a), n(0)));
    assert_eq!(show(&r(a), &heap), "(1 1 1 1 1 ...)");
    // A string whose characters run in a circle ends after as many
    // characters as the heap has ribs.
    let c = heap.len();
    heap.push_rib(rib(n(97), r(c), n(0)));
    let text = r(heap.push_rib(rib(r(c), n(1), n(3))));
    assert_eq!(show(&text, &heap), format!("\"{}\"", "a".repeat(heap.len())));
}

#[test]
fn the_stack_is_shown_down_to_the_continuation() {
    let mut heap = fresh();
    let halt = heap.push_rib(rib(n(5), n(0), n(0)));
    let mut stack = heap.push_rib(rib(n(0), n(0), r(halt)));
    assert_eq!(show_stack(&stack, &heap), "()");
    push_stack(n(1), &mut stack, &mut heap);
    push_stack(r(2), &mut stack, &mut heap);
    push_stack(n(3), &mut stack, &mut heap);
    assert_eq!(show_stack(&stack, &heap), "( 3 () 1)");
}
