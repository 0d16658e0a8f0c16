//! Digests of strings, computed by the `crypto` crate. A digest has no short
//! mathematical statement, so each gets a name the contracts speak of: the
//! same input always yields the same digest.

use vstd::prelude::*;

verus! {

/// The MD5 digest of a string's bytes, written as lower-case hexadecimal.
pub uninterp spec fn md5_hex_of(s: Seq<char>) -> Seq<char>;

/// The SHA-1 digest of a string's bytes, written as lower-case hexadecimal.
pub uninterp spec fn sha1_hex_of(s: Seq<char>) -> Seq<char>;

/// Digest helpers.
pub struct SecureUtil;

impl SecureUtil {
    /// Relies on `crypto::md5::Md5` with `Digest::result_str`: the digest
    /// depends on the input alone; sixteen bytes, so thirty-two hex digits.
    #[verifier::external_body]
    pub fn md5(input: &str) -> (r: String)
        ensures
            r@ == md5_hex_of(input@),
            r@.len() == 32,
    {
        let mut md5 = crypto::md5::Md5::new();
        crypto::digest::Digest::input(&mut md5, input.as_ref());
        crypto::digest::Digest::result_str(&mut md5)
    }

    /// Relies on `crypto::sha1::Sha1` with `Digest::result_str`: the digest
    /// depends on the input alone; twenty bytes, so forty hex digits.
    #[verifier::external_body]
    pub fn sha1(input: &str) -> (r: String)
        ensures
            r@ == sha1_hex_of(input@),
            r@.len() == 40,
    {
        let mut sha1 = crypto::sha1::Sha1::new();
        crypto::digest::Digest::input_str(&mut sha1, input);
        crypto::digest::Digest::result_str(&mut sha1)
    }
}

} // verus!
