//! Characters and strings.
use vstd::prelude::*;

verus! {

/// The upper-case form of an ASCII letter; every other character is left as it is.
pub open spec fn spec_ascii_uppercase(c: char) -> char {
    if 'a' <= c && c <= 'z' {
        ((c as u32) - 32) as char
    } else {
        c
    }
}

/// The upper-case form of an ASCII letter; every other character is left as it is.
pub(crate) fn char_to_ascii_uppercase(c: char) -> (r: char)
    ensures
        r == spec_ascii_uppercase(c),
{
    if 'a' <= c && c <= 'z' {
        (c as u32 - 32) as u8 as char
    } else {
        c
    }
}

/// `String::push` of std: appends one character.
#[verifier::external_body]
pub(crate) fn string_push(s: &mut String, c: char)
    ensures
        final(s)@ == old(s)@.push(c),
{
    s.push(c)
}

} // verus!
