//! Reading the program text: characters, codes and integers.

use crate::error::VmError;
use crate::field::fits_i32;
use vstd::prelude::*;

verus! {

/// The code of a character of the program text: its distance from `#`,
/// and 57 for the characters below `#`.
pub open spec fn code_of(b: u8) -> int {
    if b >= 35 {
        b - 35
    } else {
        57
    }
}

/// The integer that stands at `pos`, read in base 46 with `n` as the digits
/// read so far, and the position behind it. A code below 46 is the last
/// digit; a code from 46 up is the digit `code - 46` with more to follow.
/// The text may end too early, and a step may leave the range of a machine
/// integer.
pub open spec fn int_at(s: Seq<u8>, pos: int, n: int) -> Result<(int, int), VmError>
    decreases s.len() - pos,
{
    if pos < 0 || pos >= s.len() {
        Err(VmError::UnexpectedEnd)
    } else {
        let x = code_of(s[pos]);
        if !fits_i32(46 * n) || !fits_i32(46 * n + x) {
            Err(VmError::Overflow)
        } else if x < 46 {
            Ok((46 * n + x, pos + 1))
        } else {
            int_at(s, pos + 1, 46 * n + x - 46)
        }
    }
}

/// An integer read from non-negative digits is not negative.
pub proof fn lemma_int_at_nonnegative(s: Seq<u8>, pos: int, n: int)
    requires
        n >= 0,
        int_at(s, pos, n) is Ok,
    ensures
        int_at(s, pos, n)->Ok_0.0 >= 0,
        pos < int_at(s, pos, n)->Ok_0.1 <= s.len(),
    decreases s.len() - pos,
{
    let x = code_of(s[pos]);
    if x >= 46 {
        lemma_int_at_nonnegative(s, pos + 1, 46 * n + x - 46);
    }
}

/// The code point of a character that is there.
pub fn decode_char_to_u32(c: Option<char>) -> (r: u32)
    requires
        c is Some,
    ensures
        r == c->0 as u32,
{
    match c {
        Some(ch) => ch as u32,
        None => 0,
    }
}

/// The character at `pos`, if the text has one there; moves on behind it.
pub fn next_char(code: &[u8], pos: &mut usize) -> (c: Option<char>)
    ensures
        *old(pos) < code@.len() ==> c == Some(code@[*old(pos) as int] as char) && *final(pos)
            == *old(pos) + 1,
        *old(pos) >= code@.len() ==> c is None && *final(pos) == *old(pos),
{
    if *pos < code.len() {
        let b = code[*pos];
        *pos += 1;
        Some(b as char)
    } else {
        None
    }
}

/// Reads one character of the text and moves on.
pub fn get_byte(code: &[u8], pos: &mut usize) -> (r: u32)
    requires
        *old(pos) < code@.len(),
    ensures
        r == code@[*old(pos) as int],
        *final(pos) == *old(pos) + 1,
{
    decode_char_to_u32(next_char(code, pos))
}

/// Reads one character of the text as a code and moves on.
pub fn get_code(code: &[u8], pos: &mut usize) -> (r: i32)
    requires
        *old(pos) < code@.len(),
    ensures
        r == code_of(code@[*old(pos) as int]),
        0 <= r <= 220,
        *final(pos) == *old(pos) + 1,
{
    let x = get_byte(code, pos) as i32 - 35;
    if x < 0 {
        57
    } else {
        x
    }
}

/// Reads the integer that stands at the position, with `n` as the digits
/// read so far, and moves on behind it.
pub fn get_int(n: i32, code: &[u8], pos: &mut usize) -> (r: i32)
    requires
        int_at(code@, *old(pos) as int, n as int) is Ok,
    ensures
        int_at(code@, *old(pos) as int, n as int) == Ok::<(int, int), VmError>(
            (r as int, *final(pos) as int),
        ),
    decreases code@.len() - *old(pos),
{
    let x = get_code(code, pos);
    let n = n * 46;
    if x < 46 {
        n + x
    } else {
        get_int(n + x - 46, code, pos)
    }
}

/// `get_int` for any text: the error where the text ends too early or a
/// step overflows.
pub fn read_int(n: i32, code: &[u8], pos: &mut usize) -> (r: Result<i32, VmError>)
    ensures
        match int_at(code@, *old(pos) as int, n as int) {
            Ok((v, p)) => r == Ok::<i32, VmError>(v as i32) && v == r->Ok_0 && *final(pos) == p,
            Err(e) => r == Err::<i32, VmError>(e),
        },
{
    let mut acc = n;
    loop
        invariant
            *pos <= code@.len() || int_at(code@, *pos as int, acc as int) is Err,
            int_at(code@, *pos as int, acc as int) == int_at(code@, *old(pos) as int, n as int),
        decreases code@.len() - *pos,
    {
        if *pos >= code.len() {
            return Err(VmError::UnexpectedEnd);
        }
        let x = get_code(code, pos);
        let scaled = match acc.checked_mul(46) {
            Some(v) => v,
            None => {
                return Err(VmError::Overflow);
            },
        };
        let sum = match scaled.checked_add(x) {
            Some(v) => v,
            None => {
                return Err(VmError::Overflow);
            },
        };
        if x < 46 {
            return Ok(sum);
        }
        acc = sum - 46;
    }
}

} // verus!
