//! Character classes used by the scenario grammar: white space, decimal
//! digits, and the digit/value conversions that the scanner and the
//! serializer share.

use vstd::prelude::*;

verus! {

/// The Unicode `White_Space` characters, the class the scanners skip.
pub open spec fn is_space(c: char) -> bool {
    let u = c as u32;
    u == 9 || u == 10 || u == 11 || u == 12 || u == 13 || u == 32
        || u == 0x85 || u == 0xA0 || u == 0x1680
        || (0x2000 <= u && u <= 0x200A)
        || u == 0x2028 || u == 0x2029 || u == 0x202F || u == 0x205F || u == 0x3000
}

/// Decimal digit `0` ..= `9`.
pub open spec fn is_digit(c: char) -> bool {
    48 <= c as u32 && c as u32 <= 57
}

/// Numeric value of a decimal digit character.
pub open spec fn digit_val(c: char) -> int {
    c as u32 - 48
}

/// The digit character for a value between 0 and 9.
pub open spec fn digit_char_of(d: int) -> char {
    if d == 0 { '0' }
    else if d == 1 { '1' }
    else if d == 2 { '2' }
    else if d == 3 { '3' }
    else if d == 4 { '4' }
    else if d == 5 { '5' }
    else if d == 6 { '6' }
    else if d == 7 { '7' }
    else if d == 8 { '8' }
    else { '9' }
}

pub proof fn lemma_digit_char_of(d: int)
    requires
        0 <= d <= 9,
    ensures
        is_digit(digit_char_of(d)),
        digit_val(digit_char_of(d)) == d,
        !is_space(digit_char_of(d)),
{
}

pub fn space_char(c: char) -> (r: bool)
    ensures
        r == is_space(c),
{
    let u = c as u32;
    u == 9 || u == 10 || u == 11 || u == 12 || u == 13 || u == 32
        || u == 0x85 || u == 0xA0 || u == 0x1680
        || (0x2000 <= u && u <= 0x200A)
        || u == 0x2028 || u == 0x2029 || u == 0x202F || u == 0x205F || u == 0x3000
}

pub fn digit_char(c: char) -> (r: bool)
    ensures
        r == is_digit(c),
{
    let u = c as u32;
    48 <= u && u <= 57
}

pub fn digit_value(c: char) -> (r: u32)
    requires
        is_digit(c),
    ensures
        r == digit_val(c),
{
    c as u32 - 48
}

pub fn char_of_digit(d: u32) -> (c: char)
    requires
        d <= 9,
    ensures
        c == digit_char_of(d as int),
{
    if d == 0 { '0' }
    else if d == 1 { '1' }
    else if d == 2 { '2' }
    else if d == 3 { '3' }
    else if d == 4 { '4' }
    else if d == 5 { '5' }
    else if d == 6 { '6' }
    else if d == 7 { '7' }
    else if d == 8 { '8' }
    else { '9' }
}

} // verus!
