//! The pretty-printer: renders a value for diagnostics.

use crate::field::{
    Rib, RibField, FALSE_REF, NIL_REF, PAIR, PROCEDURE, SPECIAL, STRING, SYMBOL, TRUE_REF, VECTOR,
};
use crate::heap::RibHeap;
use crate::prims::{is_scalar, load, target};
use crate::text::{decimal, push_decimal, string_push};
use vstd::prelude::*;
use vstd::string::StringExecFns;

verus! {

/// How deep `show` follows references before it writes `...` instead.
pub const SHOW_DEPTH: usize = 16;

/// Whether a field refers to a cell of the heap whose `last` is the
/// integer 0: a cell of a list.
pub open spec fn list_cell(h: Seq<Rib>, f: RibField) -> bool {
    match target(h, f) {
        Some(r) => r.last == RibField::Number(PAIR),
        None => false,
    }
}

/// The character that a field of a string holds; the replacement
/// character where it holds no character's code.
pub open spec fn char_at(x: RibField) -> char {
    match x {
        RibField::Number(n) => if is_scalar(n as int) {
            n as char
        } else {
            '\u{FFFD}'
        },
        RibField::Rib(_) => '\u{FFFD}',
    }
}

/// A character inside a quoted string: newline, carriage return and tab as
/// `\n`, `\r` and `\t`, and a backslash in front of a backslash and of a
/// double quote.
pub open spec fn escaped(c: char) -> Seq<char> {
    if c == '\n' {
        seq!['\\', 'n']
    } else if c == '\r' {
        seq!['\\', 'r']
    } else if c == '\t' {
        seq!['\\', 't']
    } else if c == '\\' || c == '"' {
        seq!['\\', c]
    } else {
        seq![c]
    }
}

/// The characters of the list at `f`, escaped or not. The walk ends at the
/// first field that is no list cell, and after `fuel` cells.
pub open spec fn chars_from(h: Seq<Rib>, f: RibField, fuel: nat, escape: bool) -> Seq<char>
    decreases fuel,
{
    if fuel > 0 && list_cell(h, f) {
        let cell = h[f->Rib_0 as int];
        let c = char_at(cell.first);
        (if escape {
            escaped(c)
        } else {
            seq![c]
        }) + chars_from(h, cell.middle, (fuel - 1) as nat, escape)
    } else {
        Seq::empty()
    }
}

/// The integer in a field, in decimal; a question mark for a reference.
pub open spec fn number_text(f: RibField) -> Seq<char> {
    match f {
        RibField::Number(n) => decimal(n as int),
        RibField::Rib(_) => seq!['?'],
    }
}

/// Whether a rib is a string of at least one character.
pub open spec fn is_name(r: Rib) -> bool {
    &&& r.last == RibField::Number(STRING)
    &&& r.middle matches RibField::Number(n)
    &&& n > 0
}

/// The rendering of a value, following references `depth` deep.
///
/// An integer is written in decimal. A reference is written by the kind of
/// the rib it refers to: a pair as a list in parentheses, see `shown_rest`;
/// a procedure as `#<procedure nparams=N>`, with the first field of its
/// code, or as `#<primitive K>`; a symbol as its name, if the name is a
/// string of at least one character, else as `#<symbol …>` with the
/// rendering of its name field; a string in double quotes; a vector as `#`
/// and the rendering of its list; the singletons as `#f`, `#t` and `()`;
/// any other rib as `[first,middle,last]`. Below the depth `...` is written.
pub open spec fn shown(h: Seq<Rib>, o: RibField, depth: nat) -> Seq<char>
    decreases depth, 0nat,
{
    match o {
        RibField::Number(n) => decimal(n as int),
        RibField::Rib(i) => if depth == 0 || i >= h.len() {
            "..."@
        } else {
            let d = (depth - 1) as nat;
            let rib = h[i as int];
            let plain = "["@ + shown(h, rib.first, d) + ","@ + shown(h, rib.middle, d) + ","@
                + shown(h, rib.last, d) + "]"@;
            match rib.last {
                RibField::Rib(_) => plain,
                RibField::Number(kind) => if kind == VECTOR {
                    "#"@ + shown(h, rib.first, d)
                } else if kind == PAIR {
                    "("@ + shown(h, rib.first, d) + shown_rest(h, rib.middle, 1, d) + ")"@
                } else if kind == PROCEDURE {
                    match target(h, rib.first) {
                        Some(code) => "#<procedure nparams="@ + number_text(code.first) + ">"@,
                        None => "#<primitive "@ + number_text(rib.first) + ">"@,
                    }
                } else if kind == SYMBOL {
                    match target(h, rib.middle) {
                        Some(name) => if is_name(name) {
                            chars_from(h, name.first, h.len(), false)
                        } else {
                            "#<symbol "@ + shown(h, rib.middle, d) + ">"@
                        },
                        None => "#<symbol "@ + shown(h, rib.middle, d) + ">"@,
                    }
                } else if kind == STRING {
                    "\""@ + chars_from(h, rib.first, h.len(), true) + "\""@
                } else if kind == SPECIAL && i == FALSE_REF {
                    "#f"@
                } else if kind == SPECIAL && i == TRUE_REF {
                    "#t"@
                } else if kind == SPECIAL && i == NIL_REF {
                    "()"@
                } else {
                    plain
                },
            }
        },
    }
}

/// The rest of a list after its `n` first elements: each further element
/// after a space, ` ...` in place of the sixth, and a tail that is not the
/// empty list after ` . `.
pub open spec fn shown_rest(h: Seq<Rib>, m: RibField, n: nat, depth: nat) -> Seq<char>
    decreases depth, if n < 7 {
        (8 - n) as nat
    } else {
        1nat
    },
{
    if list_cell(h, m) {
        if n > 4 {
            " ..."@
        } else {
            let cell = h[m->Rib_0 as int];
            " "@ + shown(h, cell.first, depth) + shown_rest(h, cell.middle, n + 1, depth)
        }
    } else if m != RibField::Rib(NIL_REF) {
        " . "@ + shown(h, m, depth)
    } else {
        Seq::empty()
    }
}

/// The rendering of the stack for a trace: `(`, each value after a space,
/// and `)`. The walk ends at the first cell whose `last` is not the integer
/// 0, at a cell that no reference follows, and after `fuel` cells.
pub open spec fn stack_items(h: Seq<Rib>, s: RibField, fuel: nat) -> Seq<char>
    decreases fuel,
{
    if fuel > 0 && list_cell(h, s) {
        let cell = h[s->Rib_0 as int];
        " "@ + shown(h, cell.first, SHOW_DEPTH as nat) + stack_items(
            h,
            cell.middle,
            (fuel - 1) as nat,
            )
    } else {
        Seq::empty()
    }
}

/// The cell that a field refers to, if it is a cell of a list.
fn as_list_cell(f: &RibField, holder: &RibHeap) -> (r: Option<Rib>)
    ensures
        list_cell(holder@, *f) ==> r == Some(holder@[f->Rib_0 as int]),
        !list_cell(holder@, *f) ==> r is None,
{
    match load(f, holder) {
        Some(cell) => match cell.last {
            RibField::Number(0) => Some(cell),
            _ => None,
        },
        None => None,
    }
}

/// The character that a field of a string holds.
fn char_of(x: &RibField) -> (c: char)
    ensures
        c == char_at(*x),
{
    match x {
        RibField::Number(n) => {
            if *n < 0 {
                '\u{FFFD}'
            } else {
                match char::from_u32(*n as u32) {
                    Some(c) => c,
                    None => '\u{FFFD}',
                }
            }
        },
        RibField::Rib(_) => '\u{FFFD}',
    }
}

/// Appends a character as it stands inside a quoted string.
fn push_escaped(c: char, s: &mut String)
    ensures
        final(s)@ == old(s)@ + escaped(c),
{
    if c == '\n' {
        string_push(s, '\\');
        string_push(s, 'n');
    } else if c == '\r' {
        string_push(s, '\\');
        string_push(s, 'r');
    } else if c == '\t' {
        string_push(s, '\\');
        string_push(s, 't');
    } else if c == '\\' || c == '"' {
        string_push(s, '\\');
        string_push(s, c);
    } else {
        string_push(s, c);
    }
    assert(final(s)@ =~= old(s)@ + escaped(c));
}

/// Appends the characters of the list at `f`.
fn push_chars(f: RibField, escape: bool, holder: &RibHeap, s: &mut String)
    ensures
        final(s)@ == old(s)@ + chars_from(holder@, f, holder@.len(), escape),
{
    let mut field_o = f;
    let mut fuel = holder.len();
    assert(s@ =~= old(s)@ + Seq::<char>::empty());
    while fuel > 0
        invariant
            s@ + chars_from(holder@, field_o, fuel as nat, escape) == old(s)@ + chars_from(
                holder@,
                f,
                holder@.len(),
                escape,
            ),
        decreases fuel,
    {
        let cell = match as_list_cell(&field_o, holder) {
            Some(cell) => cell,
            None => {
                assert(s@ =~= s@ + Seq::<char>::empty());
                return ;
            },
        };
        let ghost before = s@;
        let ghost rest = chars_from(holder@, cell.middle, (fuel - 1) as nat, escape);
        let c = char_of(&cell.first);
        if escape {
            push_escaped(c, s);
            assert(s@ + rest =~= before + (escaped(c) + rest));
        } else {
            string_push(s, c);
            assert(s@ + rest =~= before + (seq![c] + rest));
        }
        field_o = cell.middle;
        fuel -= 1;
    }
    assert(s@ =~= s@ + Seq::<char>::empty());
}

/// Appends the integer in a field, or a question mark.
fn push_number(f: &RibField, s: &mut String)
    ensures
        final(s)@ == old(s)@ + number_text(*f),
{
    match f {
        RibField::Number(n) => push_decimal(*n, s),
        RibField::Rib(_) => {
            string_push(s, '?');
            assert(final(s)@ =~= old(s)@ + seq!['?']);
        },
    }
}

/// Appends the rest of a list after its `n` first elements.
fn push_rest(m: &RibField, n: usize, holder: &RibHeap, depth: usize, s: &mut String)
    requires
        n >= 1,
    ensures
        final(s)@ == old(s)@ + shown_rest(holder@, *m, n as nat, depth as nat),
    decreases depth, if n < 7 {
        (8 - n) as nat
    } else {
        1nat
    },
{
    match as_list_cell(m, holder) {
        Some(cell) => {
            if n > 4 {
                s.append(" ...");
            } else {
                s.append(" ");
                push_shown(&cell.first, holder, depth, s);
                push_rest(&cell.middle, n + 1, holder, depth, s);
                assert(final(s)@ =~= old(s)@ + (" "@ + shown(
                    holder@,
                    cell.first,
                    depth as nat,
                ) + shown_rest(holder@, cell.middle, (n + 1) as nat, depth as nat)));
            }
        },
        None => {
            if *m != RibField::Rib(NIL_REF) {
                s.append(" . ");
                push_shown(m, holder, depth, s);
                assert(final(s)@ =~= old(s)@ + (" . "@ + shown(holder@, *m, depth as nat)));
            } else {
                assert(final(s)@ =~= old(s)@ + Seq::<char>::empty());
            }
        },
    }
}

/// Appends a rib as `[first,middle,last]`.
fn push_plain(rib: &Rib, holder: &RibHeap, d: usize, s: &mut String)
    ensures
        final(s)@ == old(s)@ + ("["@ + shown(holder@, rib.first, d as nat) + ","@ + shown(
            holder@,
            rib.middle,
            d as nat,
        ) + ","@ + shown(holder@, rib.last, d as nat) + "]"@),
    decreases d, 1nat,
{
    s.append("[");
    push_shown(&rib.first, holder, d, s);
    s.append(",");
    push_shown(&rib.middle, holder, d, s);
    s.append(",");
    push_shown(&rib.last, holder, d, s);
    s.append("]");
    assert(final(s)@ =~= old(s)@ + ("["@ + shown(holder@, rib.first, d as nat) + ","@ + shown(
        holder@,
        rib.middle,
        d as nat,
    ) + ","@ + shown(holder@, rib.last, d as nat) + "]"@));
}

/// Appends the rendering of a value, following references `depth` deep.
pub fn push_shown(o: &RibField, holder: &RibHeap, depth: usize, s: &mut String)
    ensures
        final(s)@ == old(s)@ + shown(holder@, *o, depth as nat),
    decreases depth, 0nat,
{
    let i = match o {
        RibField::Number(n) => {
            push_decimal(*n, s);
            return ;
        },
        RibField::Rib(i) => *i,
    };
    if depth == 0 || i >= holder.len() {
        s.append("...");
        return ;
    }
    let d = depth - 1;
    let rib = holder.get(&i);
    let ghost h = holder@;
    let ghost start = s@;
    let kind = match rib.last {
        RibField::Rib(_) => {
            push_plain(&rib, holder, d, s);
            return ;
        },
        RibField::Number(kind) => kind,
    };
    if kind == VECTOR {
        s.append("#");
        push_shown(&rib.first, holder, d, s);
        assert(s@ =~= start + ("#"@ + shown(h, rib.first, d as nat)));
    } else if kind == PAIR {
        s.append("(");
        push_shown(&rib.first, holder, d, s);
        push_rest(&rib.middle, 1, holder, d, s);
        s.append(")");
        assert(s@ =~= start + ("("@ + shown(h, rib.first, d as nat) + shown_rest(
            h,
            rib.middle,
            1,
            d as nat,
        ) + ")"@));
    } else if kind == PROCEDURE {
        match load(&rib.first, holder) {
            Some(code) => {
                s.append("#<procedure nparams=");
                push_number(&code.first, s);
                s.append(">");
                assert(s@ =~= start + ("#<procedure nparams="@ + number_text(code.first) + ">"@));
            },
            None => {
                s.append("#<primitive ");
                push_number(&rib.first, s);
                s.append(">");
                assert(s@ =~= start + ("#<primitive "@ + number_text(rib.first) + ">"@));
            },
        }
    } else if kind == SYMBOL {
        let named = match load(&rib.middle, holder) {
            Some(name) => match (name.last, name.middle) {
                (RibField::Number(3), RibField::Number(n)) => if n > 0 {
                    Some(name.first)
                } else {
                    None
                },
                _ => None,
            },
            None => None,
        };
        match named {
            Some(chars) => {
                push_chars(chars, false, holder, s);
            },
            None => {
                s.append("#<symbol ");
                push_shown(&rib.middle, holder, d, s);
                s.append(">");
                assert(s@ =~= start + ("#<symbol "@ + shown(h, rib.middle, d as nat) + ">"@));
            },
        }
    } else if kind == STRING {
        s.append("\"");
        push_chars(rib.first, true, holder, s);
        s.append("\"");
        assert(s@ =~= start + ("\""@ + chars_from(h, rib.first, h.len(), true) + "\""@));
    } else if kind == SPECIAL && i == FALSE_REF {
        s.append("#f");
    } else if kind == SPECIAL && i == TRUE_REF {
        s.append("#t");
    } else if kind == SPECIAL && i == NIL_REF {
        s.append("()");
    } else {
        push_plain(&rib, holder, d, s);
    }
}

/// The rendering of a value for diagnostics.
pub fn show(o: &RibField, holder: &RibHeap) -> (s: String)
    ensures
        s@ == shown(holder@, *o, SHOW_DEPTH as nat),
{
    let mut result = String::new();
    push_shown(o, holder, SHOW_DEPTH, &mut result);
    assert(result@ =~= shown(holder@, *o, SHOW_DEPTH as nat));
    result
}

/// Appends the values of the stack, each after a space.
fn push_items(first: RibField, holder: &RibHeap, s: &mut String)
    ensures
        final(s)@ == old(s)@ + stack_items(holder@, first, holder@.len()),
{
    let mut cur = first;
    let mut fuel = holder.len();
    assert(s@ =~= old(s)@ + Seq::<char>::empty());
    while fuel > 0
        invariant
            s@ + stack_items(holder@, cur, fuel as nat) == old(s)@ + stack_items(
                holder@,
                first,
                holder@.len(),
            ),
        decreases fuel,
    {
        let cell = match as_list_cell(&cur, holder) {
            Some(cell) => cell,
            None => {
                assert(s@ =~= s@ + Seq::<char>::empty());
                return ;
            },
        };
        let ghost before = s@;
        let ghost rest = stack_items(holder@, cell.middle, (fuel - 1) as nat);
        s.append(" ");
        push_shown(&cell.first, holder, SHOW_DEPTH, s);
        assert(s@ + rest =~= before + (" "@ + shown(holder@, cell.first, SHOW_DEPTH as nat)
            + rest));
        cur = cell.middle;
        fuel -= 1;
    }
    assert(s@ =~= s@ + Seq::<char>::empty());
}

/// The rendering of the stack for a trace: the values from the top of the
/// stack down to the nearest continuation frame, in parentheses.
pub fn show_stack(stack: &usize, holder: &RibHeap) -> (s: String)
    ensures
        s@ == "("@ + stack_items(holder@, RibField::Rib(*stack), holder@.len()) + ")"@,
{
    let mut result = String::new();
    result.append("(");
    push_items(RibField::Rib(*stack), holder, &mut result);
    result.append(")");
    assert(result@ =~= "("@ + stack_items(holder@, RibField::Rib(*stack), holder@.len()) + ")"@);
    result
}

} // verus!
