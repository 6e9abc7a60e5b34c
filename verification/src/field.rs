//! Fields and ribs: the uniform data model of the machine.

use vstd::prelude::*;
use vstd::std_specs::ops::{AddSpecImpl, DivSpecImpl, MulSpecImpl, SubSpecImpl};

verus! {

/// Tag of a pair; also the tag of stack and list cells.
pub const PAIR: i32 = 0;

/// Tag of a procedure.
pub const PROCEDURE: i32 = 1;

/// Tag of a symbol.
pub const SYMBOL: i32 = 2;

/// Tag of a string.
pub const STRING: i32 = 3;

/// Tag of a vector.
pub const VECTOR: i32 = 4;

/// Tag of the three singletons.
pub const SPECIAL: i32 = 5;

/// Opcode of a call, and of a jump: a call whose `last` is an integer.
pub const CALL: i32 = 0;

/// Opcode of an assignment.
pub const SET: i32 = 1;

/// Opcode of a read.
pub const GET: i32 = 2;

/// Opcode of a constant.
pub const CNST: i32 = 3;

/// Opcode of a conditional.
pub const IF: i32 = 4;

/// Opcode of the end of the program.
pub const HALT: i32 = 5;

/// Heap index of `#f`.
pub const FALSE_REF: usize = 0;

/// Heap index of `#t`.
pub const TRUE_REF: usize = 1;

/// Heap index of `()`.
pub const NIL_REF: usize = 2;

/// One field of a rib: a heap index or a machine integer.
#[derive(Copy, Clone, Debug, PartialEq, Eq, Structural)]
pub enum RibField {
    /// A reference: the index of a rib of the heap.
    Rib(usize),
    /// A machine integer.
    Number(i32),
}

/// A heap cell of three fields.
#[derive(Copy, Clone, Debug, PartialEq, Eq, Structural)]
pub struct Rib {
    /// The first field: the value of a pair, the opcode of an instruction.
    pub first: RibField,
    /// The middle field: the rest of a list, the operand of an instruction.
    pub middle: RibField,
    /// The last field: the tag of an object, the successor of an
    /// instruction.
    pub last: RibField,
}

/// The rib that each of the three singletons starts out as.
pub open spec fn special_rib() -> Rib {
    Rib { first: RibField::Number(0), middle: RibField::Number(0), last: RibField::Number(SPECIAL) }
}

/// The pair cell that holds `x` in front of the list `rest`.
pub open spec fn pair_rib(x: RibField, rest: usize) -> Rib {
    Rib { first: x, middle: RibField::Rib(rest), last: RibField::Number(PAIR) }
}

/// Whether a sum, difference or product lies in the range of a machine
/// integer.
pub open spec fn fits_i32(v: int) -> bool {
    i32::MIN <= v <= i32::MAX
}

/// Magnitude of an integer.
pub open spec fn magnitude(v: int) -> int {
    if v < 0 {
        -v
    } else {
        v
    }
}

/// Integer division that rounds toward zero: the quotient of the
/// magnitudes, negative when the signs differ.
pub open spec fn trunc_div(a: int, b: int) -> int {
    let q = magnitude(a) / magnitude(b);
    if (a < 0) == (b < 0) {
        q
    } else {
        -q
    }
}

/// Whether a field is a heap reference.
pub fn is_rib(obj: &RibField) -> (b: bool)
    ensures
        b == (*obj is Rib),
{
    match obj {
        RibField::Rib(_) => true,
        _ => false,
    }
}

/// The reference to `#t` when the test holds, to `#f` when it does not.
pub open spec fn bool_field(b: bool) -> RibField {
    if b {
        RibField::Rib(TRUE_REF)
    } else {
        RibField::Rib(FALSE_REF)
    }
}

/// Runs the test and turns its answer into the machine's boolean.
pub fn to_bool<E>(expr: E) -> (r: RibField) where E: FnOnce() -> bool
    requires
        call_requires(expr, ()),
    ensures
        r == RibField::Rib(TRUE_REF) || r == RibField::Rib(FALSE_REF),
        call_ensures(expr, (), r == RibField::Rib(TRUE_REF)),
{
    if expr() {
        RibField::Rib(TRUE_REF)
    } else {
        RibField::Rib(FALSE_REF)
    }
}

/// A rib of the three given fields.
pub fn make_rib(first: RibField, middle: RibField, last: RibField) -> (r: Rib)
    ensures
        r == (Rib { first, middle, last }),
{
    Rib { first, middle, last }
}

/// An object: a rib whose last field is the integer tag of its kind.
pub fn make_data_rib(first: RibField, middle: RibField, last: i32) -> (r: Rib)
    ensures
        r == (Rib { first, middle, last: RibField::Number(last) }),
{
    make_rib(first, middle, RibField::Number(last))
}

/// An instruction: a rib whose first field is the integer opcode.
pub fn make_op_rib(first: i32, middle: RibField, last: RibField) -> (r: Rib)
    ensures
        r == (Rib { first: RibField::Number(first), middle, last }),
{
    make_rib(RibField::Number(first), middle, last)
}

impl RibField {
    /// The integer in a field that holds one.
    pub fn get_number(&self) -> (n: i32)
        requires
            *self is Number,
        ensures
            *self == RibField::Number(n),
    {
        match self {
            RibField::Rib(_) => 0,
            RibField::Number(n) => *n,
        }
    }

    /// The heap index in a field that holds one.
    pub fn get_rib_ref(&self) -> (i: usize)
        requires
            *self is Rib,
        ensures
            *self == RibField::Rib(i),
    {
        match self {
            RibField::Rib(inner) => *inner,
            RibField::Number(_) => 0,
        }
    }

    /// Whether the field is an integer less than the integer in `other`.
    /// A reference is less than nothing, and nothing is less than a
    /// reference.
    pub open spec fn less_than(self, other: RibField) -> bool {
        match (self, other) {
            (RibField::Number(n), RibField::Number(m)) => n < m,
            _ => false,
        }
    }
}

impl AddSpecImpl for RibField {
    open spec fn obeys_add_spec() -> bool {
        true
    }

    open spec fn add_req(self, rhs: RibField) -> bool {
        match (self, rhs) {
            (RibField::Number(n), RibField::Number(m)) => fits_i32(n + m),
            _ => true,
        }
    }

    open spec fn add_spec(self, rhs: RibField) -> Option<RibField> {
        match (self, rhs) {
            (RibField::Number(n), RibField::Number(m)) => Some(RibField::Number((n + m) as i32)),
            _ => None,
        }
    }
}

impl core::ops::Add for RibField {
    type Output = Option<RibField>;

    /// The sum of two integers; `None` unless both fields are integers.
    fn add(self, rhs: RibField) -> (r: Option<RibField>) {
        match self {
            RibField::Number(n) => match rhs {
                RibField::Number(m) => Some(RibField::Number(n + m)),
                _ => None,
            },
            _ => None,
        }
    }
}

impl SubSpecImpl for RibField {
    open spec fn obeys_sub_spec() -> bool {
        true
    }

    open spec fn sub_req(self, rhs: RibField) -> bool {
        match (self, rhs) {
            (RibField::Number(n), RibField::Number(m)) => fits_i32(n - m),
            _ => true,
        }
    }

    open spec fn sub_spec(self, rhs: RibField) -> Option<RibField> {
        match (self, rhs) {
            (RibField::Number(n), RibField::Number(m)) => Some(RibField::Number((n - m) as i32)),
            _ => None,
        }
    }
}

impl core::ops::Sub for RibField {
    type Output = Option<RibField>;

    /// The difference of two integers; `None` unless both fields are
    /// integers.
    fn sub(self, rhs: RibField) -> (r: Option<RibField>) {
        match self {
            RibField::Number(n) => match rhs {
                RibField::Number(m) => Some(RibField::Number(n - m)),
                _ => None,
            },
            _ => None,
        }
    }
}

impl MulSpecImpl for RibField {
    open spec fn obeys_mul_spec() -> bool {
        true
    }

    open spec fn mul_req(self, rhs: RibField) -> bool {
        match (self, rhs) {
            (RibField::Number(n), RibField::Number(m)) => fits_i32(n * m),
            _ => true,
        }
    }

    open spec fn mul_spec(self, rhs: RibField) -> Option<RibField> {
        match (self, rhs) {
            (RibField::Number(n), RibField::Number(m)) => Some(RibField::Number((n * m) as i32)),
            _ => None,
        }
    }
}

impl core::ops::Mul for RibField {
    type Output = Option<RibField>;

    /// The product of two integers; `None` unless both fields are integers.
    fn mul(self, rhs: RibField) -> (r: Option<RibField>) {
        match self {
            RibField::Number(n) => match rhs {
                RibField::Number(m) => Some(RibField::Number(n * m)),
                _ => None,
            },
            _ => None,
        }
    }
}

impl DivSpecImpl for RibField {
    open spec fn obeys_div_spec() -> bool {
        true
    }

    open spec fn div_req(self, rhs: RibField) -> bool {
        match (self, rhs) {
            (RibField::Number(n), RibField::Number(m)) => m != 0 && fits_i32(
                trunc_div(n as int, m as int),
            ),
            _ => true,
        }
    }

    open spec fn div_spec(self, rhs: RibField) -> Option<RibField> {
        match (self, rhs) {
            (RibField::Number(n), RibField::Number(m)) => Some(
                RibField::Number(trunc_div(n as int, m as int) as i32),
            ),
            _ => None,
        }
    }
}

impl core::ops::Div for RibField {
    type Output = Option<RibField>;

    /// The quotient of two integers, rounded toward zero; `None` unless
    /// both fields are integers.
    fn div(self, rhs: RibField) -> (r: Option<RibField>) {
        match self {
            RibField::Number(n) => match rhs {
                RibField::Number(m) => Some(RibField::Number(quotient(n, m))),
                _ => None,
            },
            _ => None,
        }
    }
}

/// Quotient of two machine integers, rounded toward zero.
pub fn quotient(n: i32, m: i32) -> (q: i32)
    requires
        m != 0,
        fits_i32(trunc_div(n as int, m as int)),
    ensures
        q == trunc_div(n as int, m as int),
{
    let a: i64 = if n < 0 {
        -(n as i64)
    } else {
        n as i64
    };
    let b: i64 = if m < 0 {
        -(m as i64)
    } else {
        m as i64
    };
    let q: i64 = a / b;
    if (n < 0) == (m < 0) {
        q as i32
    } else {
        proof {
            vstd::arithmetic::div_mod::lemma_div_pos_is_pos(a as int, b as int);
        }
        (-q) as i32
    }
}

} // verus!
