use vstd::prelude::*;
use crate::wire::{digit_char, hex_char, is_scalar_val};

verus! {

/// Relies on `String::push`: appends exactly the one character.
#[verifier::external_body]
pub(crate) fn push_char(s: &mut String, c: char)
    ensures
        final(s)@ == old(s)@.push(c),
{
    s.push(c);
}

/// Relies on `char::from_u32`: yields the character of a code point, and
/// `None` exactly for the values no `char` can hold (surrogates and values
/// above `0x10FFFF`).
#[verifier::external_body]
pub(crate) fn char_from_u32(v: u32) -> (r: Option<char>)
    ensures
        r is Some <==> is_scalar_val(v as int),
        r matches Some(c) ==> c as u32 == v,
{
    char::from_u32(v)
}

/// The decimal digit character of `d < 10`.
pub(crate) fn digit_char_of(d: u64) -> (c: char)
    requires
        d < 10,
    ensures
        c == digit_char(d as int),
{
    let b: u8 = 48 + (d as u8);
    b as char
}

/// The lower-case hexadecimal digit character of `d < 16`.
pub(crate) fn hex_char_of(d: u32) -> (c: char)
    requires
        d < 16,
    ensures
        c == hex_char(d as int),
{
    let b: u8 = if d < 10 {
        48 + (d as u8)
    } else {
        87 + (d as u8)
    };
    b as char
}

} // verus!
