//! Random values drawn through the `rand` crate. Nothing can be promised of
//! which value comes back, so the contracts say only what holds of every
//! draw: the range it lies in, or the shape of the string built from it.

use vstd::prelude::*;

use crate::text::chars_to_string;
use rand::Rng;

verus! {

/// Is `c` a lower-case letter, an upper-case letter or a decimal digit?
pub open spec fn is_alphanumeric_ascii(c: char) -> bool {
    ('a' <= c && c <= 'z') || ('A' <= c && c <= 'Z') || ('0' <= c && c <= '9')
}

/// Relies on `rand::Rng::gen_range`: a draw from a closed, non-empty range
/// lies in that range.
#[verifier::external_body]
fn rand_i32_range(min: i32, max: i32) -> (r: i32)
    requires
        min <= max,
    ensures
        min <= r <= max,
{
    let mut rng = rand::thread_rng();
    rng.gen_range(min..=max)
}

/// Relies on `rand::Rng::gen_range`: a draw from a closed, non-empty range
/// lies in that range.
#[verifier::external_body]
fn rand_u8_range(min: u8, max: u8) -> (r: u8)
    requires
        min <= max,
    ensures
        min <= r <= max,
{
    let mut rng = rand::thread_rng();
    rng.gen_range(min..=max)
}

/// Relies on `rand::Rng::gen`: a boolean draw; nothing can be said of which.
#[verifier::external_body]
fn rand_bool_raw() -> (r: bool) {
    let mut rng = rand::thread_rng();
    rng.gen()
}

/// Draws of random values.
pub struct RandomUtil;

impl RandomUtil {
    /// A random integer between the bounds, both included. The range must not
    /// be empty.
    pub fn random_int(min: i32, max: i32) -> (r: i32)
        requires
            min <= max,
        ensures
            min <= r <= max,
    {
        rand_i32_range(min, max)
    }

    /// A random boolean.
    pub fn random_bool() -> bool {
        rand_bool_raw()
    }

    /// A random lower-case letter.
    pub fn random_char() -> (r: char)
        ensures
            'a' <= r && r <= 'z',
    {
        let b = rand_u8_range(97, 122);
        b as char
    }

    /// A random string of the given length over lower-case letters,
    /// upper-case letters and decimal digits.
    pub fn random_string(length: usize) -> (r: String)
        ensures
            r@.len() == length,
            forall|i: int| 0 <= i < r@.len() ==> is_alphanumeric_ascii(#[trigger] r@[i]),
    {
        let mut out: Vec<char> = Vec::new();
        let mut i: usize = 0;
        while i < length
            invariant
                i <= length,
                out@.len() == i,
                forall|j: int| 0 <= j < i ==> is_alphanumeric_ascii(#[trigger] out@[j]),
            decreases length - i,
        {
            let category = rand_u8_range(0, 2);
            let b: u8 = match category {
                0 => rand_u8_range(97, 122),
                1 => rand_u8_range(65, 90),
                _ => rand_u8_range(48, 57),
            };
            out.push(b as char);
            i += 1;
        }
        chars_to_string(&out)
    }
}

} // verus!
