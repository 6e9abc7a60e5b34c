//! The ways in which the machine fails.

use vstd::prelude::*;

verus! {

/// A fatal error of the machine. None can be recovered from: after one, the
/// machine is not to be run on.
#[derive(Copy, Clone, Debug, PartialEq, Eq, Structural)]
pub enum VmError {
    /// A procedure or primitive was called with the wrong number of
    /// arguments. For a variadic procedure `expected` is the least number.
    Arity { nargs: u32, expected: u32, variadic: bool },
    /// The list primitive was asked for more elements than the stack holds
    /// above the nearest continuation.
    ListUnderflow { expected: u32, found: usize },
    /// The divisor of a division was zero.
    DivisionByZero,
    /// An integer stood where a reference was needed, a reference where an
    /// integer was needed, or a reference pointed outside the heap.
    Type,
    /// The result of an arithmetic operation does not fit a machine integer.
    Overflow,
    /// The integer handed to the output primitive is no character.
    InvalidCharacter(i32),
    /// A procedure's code is an integer that names no primitive.
    UnknownPrimitive(i32),
    /// An instruction's opcode is none of the six.
    UnknownOpcode(i32),
    /// The program text ended where a character was still to be read.
    UnexpectedEnd,
}

impl VmError {
    /// The status with which a process ends on this error, for the errors
    /// that end it in an orderly way: 256 for a wrong number of arguments
    /// and for a list that cannot be built, 1 for a division by zero and for
    /// an integer that is no character. The others are faults of the
    /// program's own structure and have no status of their own.
    pub open spec fn status(self) -> Option<i32> {
        match self {
            VmError::Arity { .. } => Some(256i32),
            VmError::ListUnderflow { .. } => Some(256i32),
            VmError::DivisionByZero => Some(1i32),
            VmError::InvalidCharacter(_) => Some(1i32),
            _ => None,
        }
    }

    /// `status`, computed.
    pub fn exit_code(&self) -> (c: Option<i32>)
        ensures
            c == self.status(),
    {
        match self {
            VmError::Arity { .. } => Some(256),
            VmError::ListUnderflow { .. } => Some(256),
            VmError::DivisionByZero => Some(1),
            VmError::InvalidCharacter(_) => Some(1),
            _ => None,
        }
    }
}

} // verus!
