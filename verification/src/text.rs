//! Text: decimal numbers, and the plain renderings of fields, ribs and
//! heaps.

use crate::field::{Rib, RibField};
use crate::heap::RibHeap;
use vstd::prelude::*;
use vstd::string::StringExecFns;

verus! {

/// Calls `String::push`, which appends the character to the end of the
/// string.
#[verifier::external_body]
pub(crate) fn string_push(s: &mut String, c: char)
    ensures
        final(s)@ == old(s)@.push(c),
{
    s.push(c)
}

/// The character of a decimal digit.
pub open spec fn digit(d: nat) -> char {
    (48 + d) as char
}

/// The decimal digits of a natural number, without leading zeros.
pub open spec fn digits(n: nat) -> Seq<char>
    decreases n,
{
    if n < 10 {
        seq![digit(n)]
    } else {
        digits(n / 10).push(digit(n % 10))
    }
}

/// An integer in decimal, with a minus sign if it is negative.
pub open spec fn decimal(v: int) -> Seq<char> {
    if v < 0 {
        seq!['-'] + digits((-v) as nat)
    } else {
        digits(v as nat)
    }
}

/// Appends the decimal digits of a number.
pub fn push_digits(n: u64, s: &mut String)
    ensures
        final(s)@ == old(s)@ + digits(n as nat),
    decreases n,
{
    if n >= 10 {
        push_digits(n / 10, s);
    }
    let d = (n % 10) as u8;
    string_push(s, (48 + d) as char);
}

/// Appends an integer in decimal.
pub fn push_decimal(v: i32, s: &mut String)
    ensures
        final(s)@ == old(s)@ + decimal(v as int),
{
    if v < 0 {
        string_push(s, '-');
        push_digits((-(v as i64)) as u64, s);
        assert(final(s)@ =~= old(s)@ + decimal(v as int));
    } else {
        push_digits(v as u64, s);
    }
}

impl RibField {
    /// The plain rendering of a field: `r` and the index for a reference,
    /// `n` and the integer for an integer.
    pub open spec fn plain(self) -> Seq<char> {
        match self {
            RibField::Rib(i) => seq!['r'] + digits(i as nat),
            RibField::Number(n) => seq!['n'] + decimal(n as int),
        }
    }

    /// Appends the plain rendering of the field.
    pub fn push_text(&self, s: &mut String)
        ensures
            final(s)@ == old(s)@ + self.plain(),
    {
        match self {
            RibField::Rib(i) => {
                string_push(s, 'r');
                push_digits(*i as u64, s);
            },
            RibField::Number(n) => {
                string_push(s, 'n');
                push_decimal(*n, s);
            },
        }
        assert(final(s)@ =~= old(s)@ + self.plain());
    }

    /// The plain rendering of the field.
    pub fn text(&self) -> (s: String)
        ensures
            s@ == self.plain(),
    {
        let mut s = String::new();
        self.push_text(&mut s);
        assert(s@ =~= self.plain());
        s
    }
}

impl Rib {
    /// The plain rendering of a rib: `[f:first,m:middle,l:last]`, each
    /// field in its plain rendering.
    pub open spec fn plain(self) -> Seq<char> {
        "[f:"@ + self.first.plain() + ",m:"@ + self.middle.plain() + ",l:"@ + self.last.plain()
            + "]"@
    }

    /// Appends the plain rendering of the rib.
    pub fn push_text(&self, s: &mut String)
        ensures
            final(s)@ == old(s)@ + self.plain(),
    {
        s.append("[f:");
        self.first.push_text(s);
        s.append(",m:");
        self.middle.push_text(s);
        s.append(",l:");
        self.last.push_text(s);
        s.append("]");
        assert(final(s)@ =~= old(s)@ + self.plain());
    }

    /// The plain rendering of the rib.
    pub fn text(&self) -> (s: String)
        ensures
            s@ == self.plain(),
    {
        let mut s = String::new();
        self.push_text(&mut s);
        assert(s@ =~= self.plain());
        s
    }
}

/// The plain rendering of the first `n` ribs of a heap: one line for each,
/// the index, a colon and the rib.
pub open spec fn plain_lines(h: Seq<Rib>, n: nat) -> Seq<char>
    decreases n,
{
    if n == 0 {
        Seq::empty()
    } else {
        plain_lines(h, (n - 1) as nat) + digits((n - 1) as nat) + seq![':'] + h[n - 1].plain()
            + seq!['\n']
    }
}

impl RibHeap {
    /// The plain rendering of the heap.
    pub fn text(&self) -> (s: String)
        ensures
            s@ == plain_lines(self@, self@.len()),
    {
        let mut record = String::new();
        let mut index: usize = 0;
        let n = self.len();
        assert(record@ =~= plain_lines(self@, 0));
        while index < n
            invariant
                index <= n,
                n == self@.len(),
                record@ == plain_lines(self@, index as nat),
            decreases n - index,
        {
            let ghost before = record@;
            push_digits(index as u64, &mut record);
            string_push(&mut record, ':');
            self.get(&index).push_text(&mut record);
            string_push(&mut record, '\n');
            index += 1;
            assert(record@ =~= plain_lines(self@, index as nat));
        }
        record
    }
}

} // verus!
