//! Small trusted bridges to `std` functions that `vstd` gives no
//! specification of its own.

use vstd::prelude::*;

verus! {

/// Relies on `str`'s `PartialEq`: two string slices compare equal exactly
/// when they hold the same characters.
#[verifier::external_body]
pub fn str_eq(a: &str, b: &str) -> (r: bool)
    ensures
        r == (a@ == b@),
{
    a == b
}

/// Relies on `str::starts_with`: true exactly when the first characters of
/// `s` are the characters of `prefix`.
#[verifier::external_body]
pub fn str_starts_with(s: &str, prefix: &str) -> (r: bool)
    ensures
        r == (s@.len() >= prefix@.len() && s@.subrange(0, prefix@.len() as int) == prefix@),
{
    s.starts_with(prefix)
}

/// Relies on `String::push`: appends the given character to the end of the
/// string.
#[verifier::external_body]
pub fn push_char(s: &mut String, c: char)
    ensures
        final(s)@ == old(s)@.push(c),
{
    s.push(c);
}

/// Relies on `std::time::SystemTime::now`: the wall clock, read once and
/// converted to whole milliseconds since the Unix epoch (zero if the clock
/// reads earlier than the epoch).  Nothing can be promised of the value: the
/// clock may move at any rate, and may even step backwards.
#[verifier::external_body]
pub fn now_millis() -> u64 {
    match std::time::SystemTime::now().duration_since(std::time::UNIX_EPOCH) {
        Ok(d) => d.as_millis() as u64,
        Err(_) => 0,
    }
}

/// Names the Unicode `Uppercase` property of a character, which
/// `char::is_uppercase` decides from the character alone.
pub uninterp spec fn char_is_upper(c: char) -> bool;

/// Relies on `char::is_uppercase`: true exactly when the character has the
/// Unicode `Uppercase` property.
pub assume_specification[ char::is_uppercase ](c: char) -> (r: bool)
    ensures
        r == char_is_upper(c),
;

} // verus!
