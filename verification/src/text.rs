//! Small string-building helpers around parts of std that vstd gives no
//! specification for.

use vstd::prelude::*;

verus! {

/// Is `v` the code of some `char` (not a surrogate, not past the last plane)?
pub open spec fn valid_char_code(v: u32) -> bool {
    v < 0xD800 || (0xE000 <= v && v <= 0x10FFFF)
}

/// Relies on `char::from_u32`: it returns the character with code `v`
/// exactly when `v` is a valid code point, and nothing otherwise.
#[verifier::external_body]
pub(crate) fn char_from_u32(v: u32) -> (r: Option<char>)
    ensures
        r matches Some(c) ==> valid_char_code(v) && c == v as char && c as u32 == v,
        r is None <==> !valid_char_code(v),
{
    char::from_u32(v)
}

/// Relies on `String`'s `FromIterator<char>`: collecting characters yields
/// the string of exactly those characters in order.
#[verifier::external_body]
pub(crate) fn chars_to_string(v: &Vec<char>) -> (r: String)
    ensures
        r@ == v@,
{
    v.iter().collect()
}

} // verus!
