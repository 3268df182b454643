//! Rendering integers as decimal strings.

use vstd::prelude::*;
use vstd::string::StringExecFns;

use crate::shims::push_char;

verus! {

/// The decimal digit character for `d`.
pub open spec fn digit_char(d: int) -> char {
    if d == 0 {
        '0'
    } else if d == 1 {
        '1'
    } else if d == 2 {
        '2'
    } else if d == 3 {
        '3'
    } else if d == 4 {
        '4'
    } else if d == 5 {
        '5'
    } else if d == 6 {
        '6'
    } else if d == 7 {
        '7'
    } else if d == 8 {
        '8'
    } else {
        '9'
    }
}

/// The decimal rendering of a non-negative integer: most significant digit
/// first, no leading zeroes (except for zero itself).
pub open spec fn dec_str(n: int) -> Seq<char>
    decreases n,
{
    if n < 10 {
        seq![digit_char(n)]
    } else {
        dec_str(n / 10).push(digit_char(n % 10))
    }
}

/// The decimal rendering of a signed integer: a minus sign, if negative,
/// followed by the rendering of the magnitude.
pub open spec fn int_dec_str(n: int) -> Seq<char> {
    if n >= 0 {
        dec_str(n)
    } else {
        seq!['-'] + dec_str(-n)
    }
}

/// The digit character for a value below ten.
fn digit_to_char(d: u64) -> (c: char)
    requires
        d < 10,
    ensures
        c == digit_char(d as int),
{
    if d == 0 {
        '0'
    } else if d == 1 {
        '1'
    } else if d == 2 {
        '2'
    } else if d == 3 {
        '3'
    } else if d == 4 {
        '4'
    } else if d == 5 {
        '5'
    } else if d == 6 {
        '6'
    } else if d == 7 {
        '7'
    } else if d == 8 {
        '8'
    } else {
        '9'
    }
}

/// Renders an unsigned integer in decimal.
pub fn u64_to_dec(n: u64) -> (s: String)
    ensures
        s@ == dec_str(n as int),
    decreases n,
{
    if n < 10 {
        let mut s = String::new();
        push_char(&mut s, digit_to_char(n));
        proof {
            assert(s@ =~= dec_str(n as int));
        }
        s
    } else {
        let mut s = u64_to_dec(n / 10);
        push_char(&mut s, digit_to_char(n % 10));
        s
    }
}

/// Renders a signed integer in decimal.
pub fn i32_to_dec(n: i32) -> (s: String)
    ensures
        s@ == int_dec_str(n as int),
{
    if n >= 0 {
        u64_to_dec(n as u64)
    } else {
        let magnitude: u64 = (-(n as i64)) as u64;
        let mut s = String::new();
        push_char(&mut s, '-');
        let digits = u64_to_dec(magnitude);
        let r = s.concat(digits.as_str());
        proof {
            assert(r@ =~= int_dec_str(n as int));
        }
        r
    }
}

} // verus!
