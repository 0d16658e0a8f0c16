//! Conversions between strings, bytes, colours, character widths and number
//! bases.

use vstd::prelude::*;

use crate::radix::{
    digit_to_char, digit_to_char_exec, digit_value, format_radix, parse_radix,
    radix_string, spec_parse_radix, ParseNumError,
};
use crate::text::{char_from_u32, chars_to_string};
use vstd::string::StringSliceAdditionalSpecFns;
use vstd::string::StrSliceExecFns;
use vstd::string::StringExecFns;

verus! {

/// What `String::from_utf8_lossy` decodes a byte sequence to.
pub uninterp spec fn utf8_lossy_of(b: Seq<u8>) -> Seq<char>;

/// Relies on `String::from_utf8_lossy`: the decoding depends on the bytes
/// alone, valid UTF-8 decodes to the text it encodes, and bytes below 128
/// decode to the characters with the same codes.
#[verifier::external_body]
fn utf8_lossy(input: &[u8]) -> (r: String)
    ensures
        r@ == utf8_lossy_of(input@),
        vstd::utf8::valid_utf8(input@) ==> vstd::utf8::encode_utf8(r@) == input@,
        (forall|i: int| 0 <= i < input@.len() ==> input@[i] < 128) ==> r@ == input@.map_values(
            |b: u8| b as char,
        ),
{
    String::from_utf8_lossy(input).to_string()
}

/// What `base64::encode` writes for a byte sequence: the standard alphabet,
/// padded.
pub uninterp spec fn base64_of(b: Seq<u8>) -> Seq<char>;

/// What `base64::decode` reads from a string: the bytes it denotes, or
/// nothing where it is no base64.
pub uninterp spec fn base64_decode_of(s: Seq<char>) -> Option<Seq<u8>>;

/// `base64::decode`'s error; the library never lets it out, it only tells
/// success from failure.
#[verifier::external_type_specification]
#[verifier::external_body]
pub struct ExDecodeError(base64::DecodeError);

/// Relies on `base64::encode`: the standard alphabet with padding, a function
/// of the bytes alone, and `base64::decode` reads the encoding back.
#[verifier::external_body]
fn base64_encode(data: &[u8]) -> (r: String)
    ensures
        r@ == base64_of(data@),
        base64_decode_of(r@) == Some(data@),
{
    base64::encode(data)
}

/// Relies on `base64::decode`: whether a string is base64, and which bytes it
/// denotes, depend on its characters alone.
#[verifier::external_body]
fn base64_decode(data: &str) -> (r: Result<Vec<u8>, base64::DecodeError>)
    ensures
        match r {
            Ok(b) => base64_decode_of(data@) == Some(b@),
            Err(_) => base64_decode_of(data@) is None,
        },
{
    base64::decode(data)
}

/// The low byte of a character's code: how a character is narrowed to a byte
/// before it is written as two hexadecimal digits.
pub open spec fn char_low_byte(c: char) -> u8 {
    ((c as int) % 256) as u8
}

/// The two hexadecimal digit characters of a byte, upper case, high digit
/// first.
pub open spec fn byte_hex_pair(b: u8) -> Seq<char> {
    seq![digit_to_char((b / 16) as nat), digit_to_char((b % 16) as nat)]
}

/// Each character's low byte written as two hexadecimal digits, concatenated.
pub open spec fn chars_hex(s: Seq<char>) -> Seq<char>
    decreases s.len(),
{
    if s.len() == 0 {
        Seq::empty()
    } else {
        byte_hex_pair(char_low_byte(s[0])) + chars_hex(s.skip(1))
    }
}

/// The bytes a sequence of hexadecimal digit pairs denotes, or nothing if
/// some character is no hexadecimal digit. Meant for even-length input; an
/// odd tail is no pair, so it yields nothing.
pub open spec fn hex_pairs_bytes(s: Seq<char>) -> Option<Seq<u8>>
    decreases s.len(),
{
    if s.len() == 0 {
        Some(Seq::empty())
    } else if s.len() == 1 {
        None
    } else {
        match digit_value(s[0], 16) {
            None => None,
            Some(h) => match digit_value(s[1], 16) {
                None => None,
                Some(l) => match hex_pairs_bytes(s.skip(2)) {
                    None => None,
                    Some(rest) => Some(seq![(16 * h + l) as u8] + rest),
                },
            },
        }
    }
}

/// A colour written as `#RRGGBB`: a hash sign and three hexadecimal pairs.
pub open spec fn rgb_hex(rgb: (u8, u8, u8)) -> Seq<char> {
    seq!['#'] + byte_hex_pair(rgb.0) + byte_hex_pair(rgb.1) + byte_hex_pair(rgb.2)
}

/// The full-width counterpart of a character: the ideographic space for the
/// space, the form at `0xFEE0` above for the printable ASCII range, and the
/// character itself otherwise.
pub open spec fn to_fullwidth(c: char) -> char {
    if c == ' ' {
        '\u{3000}'
    } else if '!' <= c && c <= '~' {
        ((c as int) + 0xFEE0) as char
    } else {
        c
    }
}

/// The half-width counterpart of a character: the inverse of `to_fullwidth`
/// on its range, the character itself otherwise.
pub open spec fn to_halfwidth(c: char) -> char {
    if c == '\u{3000}' {
        ' '
    } else if '\u{FF01}' <= c && c <= '\u{FF5E}' {
        ((c as int) - 0xFEE0) as char
    } else {
        c
    }
}

/// Stateless conversion helpers.
pub struct Convertor;

impl Convertor {
    /// Reads a `#RRGGBB` colour into its three components. Anything that is
    /// not a hash sign followed by six characters is rejected outright; a
    /// component that is no hexadecimal numeral is rejected by name.
    pub fn color_hex_to_rgb(hex: &str) -> (r: Result<(u8, u8, u8), String>)
        ensures
            ({
                let shape = hex@.len() == 7 && hex@[0] == '#';
                let red = spec_parse_radix(hex@.subrange(1, 3), 16);
                let green = spec_parse_radix(hex@.subrange(3, 5), 16);
                let blue = spec_parse_radix(hex@.subrange(5, 7), 16);
                &&& !shape ==> (r matches Err(e) && e@ == "颜色转换异常"@)
                &&& shape && red is Err ==> (r matches Err(e) && e@ == "红色分量无效"@)
                &&& shape && red is Ok && green is Err ==> (r matches Err(e) && e@
                    == "绿色分量无效"@)
                &&& shape && red is Ok && green is Ok && blue is Err ==> (r matches Err(e) && e@
                    == "蓝色分量无效"@)
                &&& shape && red is Ok && green is Ok && blue is Ok ==> (r matches Ok(t)
                    && t.0 as u64 == red.unwrap() && t.1 as u64 == green.unwrap() && t.2 as u64
                    == blue.unwrap())
            }),
    {
        let n = hex.unicode_len();
        if n != 7 || hex.get_char(0) != '#' {
            return Err(String::from_str("颜色转换异常"));
        }
        let red = match parse_radix(hex.substring_char(1, 3), 16) {
            Ok(v) => v,
            Err(_) => {
                return Err(String::from_str("红色分量无效"));
            },
        };
        let green = match parse_radix(hex.substring_char(3, 5), 16) {
            Ok(v) => v,
            Err(_) => {
                return Err(String::from_str("绿色分量无效"));
            },
        };
        let blue = match parse_radix(hex.substring_char(5, 7), 16) {
            Ok(v) => v,
            Err(_) => {
                return Err(String::from_str("蓝色分量无效"));
            },
        };
        proof {
            crate::radix::lemma_parse_two_chars(hex@.subrange(1, 3), 16);
            crate::radix::lemma_parse_two_chars(hex@.subrange(3, 5), 16);
            crate::radix::lemma_parse_two_chars(hex@.subrange(5, 7), 16);
        }
        Ok((red as u8, green as u8, blue as u8))
    }

    /// Writes three colour components as `#RRGGBB`, upper case.
    pub fn color_rgb_to_hex(rgb: (u8, u8, u8)) -> (r: String)
        ensures
            r@ == rgb_hex(rgb),
    {
        let mut out: Vec<char> = Vec::new();
        out.push('#');
        out.push(digit_to_char_exec(rgb.0 / 16));
        out.push(digit_to_char_exec(rgb.0 % 16));
        out.push(digit_to_char_exec(rgb.1 / 16));
        out.push(digit_to_char_exec(rgb.1 % 16));
        out.push(digit_to_char_exec(rgb.2 / 16));
        out.push(digit_to_char_exec(rgb.2 % 16));
        proof {
            assert(out@ =~= rgb_hex(rgb));
        }
        chars_to_string(&out)
    }

    /// Writes each character's low byte as two upper-case hexadecimal digits.
    pub fn string_to_hex(input: &str) -> (r: String)
        ensures
            r@ == chars_hex(input@),
    {
        let n = input.unicode_len();
        let mut out: Vec<char> = Vec::new();
        let mut i: usize = 0;
        proof {
            assert(input@.skip(0) =~= input@);
            assert(out@ + chars_hex(input@) =~= chars_hex(input@));
        }
        while i < n
            invariant
                i <= n,
                n == input@.len(),
                chars_hex(input@) == out@ + chars_hex(input@.skip(i as int)),
            decreases n - i,
        {
            let ghost out0 = out@;
            let c = input.get_char(i);
            let b = ((c as u32) % 256) as u8;
            proof {
                assert(b == char_low_byte(input@[i as int]));
            }
            out.push(digit_to_char_exec(b / 16));
            out.push(digit_to_char_exec(b % 16));
            i += 1;
            proof {
                let rest = input@.skip(i - 1);
                assert(rest.skip(1) =~= input@.skip(i as int));
                assert(rest[0] == input@[i - 1]);
                assert(chars_hex(rest) == byte_hex_pair(char_low_byte(input@[i - 1])) + chars_hex(
                    input@.skip(i as int),
                ));
                assert(out@ =~= out0 + byte_hex_pair(char_low_byte(input@[i - 1])));
                assert(out0 + chars_hex(rest) =~= out@ + chars_hex(input@.skip(i as int)));
            }
        }
        proof {
            assert(input@.skip(n as int) =~= Seq::<char>::empty());
            assert(chars_hex(input@) =~= out@);
        }
        chars_to_string(&out)
    }

    /// Reads pairs of hexadecimal digits as bytes and decodes those bytes as
    /// text. The numeral must come in whole pairs; a character that is no
    /// hexadecimal digit is an error.
    pub fn hex_to_string(input: &str) -> (r: Result<String, ParseNumError>)
        requires
            input@.len() % 2 == 0,
        ensures
            match hex_pairs_bytes(input@) {
                Some(b) => r matches Ok(s) && s@ == utf8_lossy_of(b),
                None => r == Err::<String, ParseNumError>(ParseNumError::InvalidDigit),
            },
    {
        let n = input.unicode_len();
        let mut bytes: Vec<u8> = Vec::new();
        let mut i: usize = 0;
        proof {
            assert(input@.skip(0) =~= input@);
            match hex_pairs_bytes(input@) {
                Some(rest) => {
                    assert(bytes@ + rest =~= rest);
                },
                None => {},
            }
        }
        while i < n
            invariant
                i <= n,
                i % 2 == 0,
                n % 2 == 0,
                n == input@.len(),
                hex_pairs_bytes(input@) == (match hex_pairs_bytes(input@.skip(i as int)) {
                    Some(rest) => Some(bytes@ + rest),
                    None => None::<Seq<u8>>,
                }),
            decreases n - i,
        {
            let ghost bytes0 = bytes@;
            let ghost rest = input@.skip(i as int);
            proof {
                assert(rest[0] == input@[i as int]);
                assert(rest[1] == input@[i + 1]);
                assert(rest.skip(2) =~= input@.skip(i + 2));
            }
            let c0 = input.get_char(i);
            let c1 = input.get_char(i + 1);
            let h = match crate::radix::char_digit_exec(c0) {
                Some(d) => d,
                None => {
                    return Err(ParseNumError::InvalidDigit);
                },
            };
            if h >= 16 {
                return Err(ParseNumError::InvalidDigit);
            }
            let l = match crate::radix::char_digit_exec(c1) {
                Some(d) => d,
                None => {
                    return Err(ParseNumError::InvalidDigit);
                },
            };
            if l >= 16 {
                return Err(ParseNumError::InvalidDigit);
            }
            bytes.push(16 * h + l);
            i += 2;
            proof {
                assert(hex_pairs_bytes(rest) == (match hex_pairs_bytes(input@.skip(i as int)) {
                    Some(r2) => Some(seq![(16 * (h as nat) + (l as nat)) as u8] + r2),
                    None => None::<Seq<u8>>,
                }));
                assert(bytes@ =~= bytes0 + seq![(16 * (h as nat) + (l as nat)) as u8]);
                match hex_pairs_bytes(input@.skip(i as int)) {
                    Some(r2) => {
                        assert(bytes0 + (seq![(16 * (h as nat) + (l as nat)) as u8] + r2)
                            =~= bytes@ + r2);
                    },
                    None => {},
                }
            }
        }
        proof {
            assert(input@.skip(n as int) =~= Seq::<char>::empty());
        }
        let s = utf8_lossy(bytes.as_slice());
        Ok(s)
    }

    /// Writes bytes as base64, standard alphabet, padded.
    pub fn bytes_to_base64(data: &[u8]) -> (r: String)
        ensures
            r@ == base64_of(data@),
            base64_decode_of(r@) == Some(data@),
    {
        base64_encode(data)
    }

    /// Reads a base64 string back to bytes and shows them as text, replacing
    /// what is no valid UTF-8. The input must be base64; `try_base64_to_bytes`
    /// checks that first.
    pub fn base64_to_bytes(data: &str) -> (r: String)
        requires
            base64_decode_of(data@) is Some,
        ensures
            r@ == utf8_lossy_of(base64_decode_of(data@).unwrap()),
    {
        match base64_decode(data) {
            Ok(bytes) => utf8_lossy(bytes.as_slice()),
            Err(_) => {
                proof {
                    assert(false);
                }
                String::new()
            },
        }
    }

    /// Reads a base64 string back to bytes and shows them as text, or nothing
    /// where the string is no base64.
    pub fn try_base64_to_bytes(data: &str) -> (r: Option<String>)
        ensures
            match base64_decode_of(data@) {
                Some(b) => r matches Some(s) && s@ == utf8_lossy_of(b),
                None => r is None,
            },
    {
        match base64_decode(data) {
            Err(_) => None,
            Ok(_) => Some(Self::base64_to_bytes(data)),
        }
    }

    /// The UTF-8 bytes of a string.
    pub fn string_to_bytes(input: &str) -> (r: Vec<u8>)
        ensures
            r@ == input.spec_bytes(),
            input.is_ascii() ==> r@ == input@.map_values(|c: char| c as u8),
    {
        proof {
            broadcast use vstd::string::is_ascii_spec_bytes;

            if input.is_ascii() {
                assert(input.spec_bytes() =~= input@.map_values(|c: char| c as u8));
            }
        }
        vstd::slice::slice_to_vec(input.as_bytes())
    }

    /// Decodes bytes as text, replacing what is no valid UTF-8.
    pub fn bytes_to_string(input: &[u8]) -> (r: String)
        ensures
            r@ == utf8_lossy_of(input@),
            (forall|i: int| 0 <= i < input@.len() ==> input@[i] < 128) ==> r@
                == input@.map_values(|b: u8| b as char),
    {
        utf8_lossy(input)
    }

    /// Writes a number in hexadecimal, upper case.
    pub fn decimal_to_hex(decimal: u64) -> (r: String)
        ensures
            r@ == radix_string(decimal as nat, 16),
    {
        format_radix(decimal, 16)
    }

    /// Reads a hexadecimal numeral.
    pub fn hex_to_decimal(hex_string: &str) -> (r: Result<u64, ParseNumError>)
        ensures
            r == spec_parse_radix(hex_string@, 16),
    {
        parse_radix(hex_string, 16)
    }

    /// Rewrites a hexadecimal numeral in octal.
    pub fn hex_to_octal(hex_string: &str) -> (r: Result<String, ParseNumError>)
        ensures
            match spec_parse_radix(hex_string@, 16) {
                Ok(n) => r matches Ok(s) && s@ == radix_string(n as nat, 8),
                Err(e) => r == Err::<String, ParseNumError>(e),
            },
    {
        let n = parse_radix(hex_string, 16)?;
        Ok(format_radix(n, 8))
    }

    /// Rewrites an octal numeral in hexadecimal, upper case.
    pub fn octal_to_hex(octal_string: &str) -> (r: Result<String, ParseNumError>)
        ensures
            match spec_parse_radix(octal_string@, 8) {
                Ok(n) => r matches Ok(s) && s@ == radix_string(n as nat, 16),
                Err(e) => r == Err::<String, ParseNumError>(e),
            },
    {
        let n = parse_radix(octal_string, 8)?;
        Ok(format_radix(n, 16))
    }

    /// Rewrites a hexadecimal numeral in binary.
    pub fn hex_to_binary(hex_string: &str) -> (r: Result<String, ParseNumError>)
        ensures
            match spec_parse_radix(hex_string@, 16) {
                Ok(n) => r matches Ok(s) && s@ == radix_string(n as nat, 2),
                Err(e) => r == Err::<String, ParseNumError>(e),
            },
    {
        let n = parse_radix(hex_string, 16)?;
        Ok(format_radix(n, 2))
    }

    /// Rewrites a binary numeral in hexadecimal, upper case.
    pub fn binary_to_hex(binary_string: &str) -> (r: Result<String, ParseNumError>)
        ensures
            match spec_parse_radix(binary_string@, 2) {
                Ok(n) => r matches Ok(s) && s@ == radix_string(n as nat, 16),
                Err(e) => r == Err::<String, ParseNumError>(e),
            },
    {
        let n = parse_radix(binary_string, 2)?;
        Ok(format_radix(n, 16))
    }

    /// Replaces every printable ASCII character, the space included, by its
    /// full-width counterpart.
    pub fn halfwidth_to_fullwidth(input: &str) -> (r: String)
        ensures
            r@ == input@.map_values(|c: char| to_fullwidth(c)),
    {
        let n = input.unicode_len();
        let mut out: Vec<char> = Vec::new();
        let mut i: usize = 0;
        while i < n
            invariant
                i <= n,
                n == input@.len(),
                out@ == input@.take(i as int).map_values(|c: char| to_fullwidth(c)),
            decreases n - i,
        {
            let c = input.get_char(i);
            let w: char = if c == ' ' {
                '\u{3000}'
            } else if c >= '!' && c <= '~' {
                match char_from_u32((c as u32) + 0xFEE0) {
                    Some(f) => f,
                    None => c,
                }
            } else {
                c
            };
            out.push(w);
            i += 1;
            proof {
                assert(out@ =~= input@.take(i as int).map_values(|c: char| to_fullwidth(c)));
            }
        }
        proof {
            assert(input@.take(n as int) =~= input@);
        }
        chars_to_string(&out)
    }

    /// Replaces every full-width form, the ideographic space included, by its
    /// half-width counterpart.
    pub fn fullwidth_to_halfwidth(input: &str) -> (r: String)
        ensures
            r@ == input@.map_values(|c: char| to_halfwidth(c)),
    {
        let n = input.unicode_len();
        let mut out: Vec<char> = Vec::new();
        let mut i: usize = 0;
        while i < n
            invariant
                i <= n,
                n == input@.len(),
                out@ == input@.take(i as int).map_values(|c: char| to_halfwidth(c)),
            decreases n - i,
        {
            let c = input.get_char(i);
            let w: char = if c == '\u{3000}' {
                ' '
            } else if c >= '\u{FF01}' && c <= '\u{FF5E}' {
                match char_from_u32((c as u32) - 0xFEE0) {
                    Some(f) => f,
                    None => c,
                }
            } else {
                c
            };
            out.push(w);
            i += 1;
            proof {
                assert(out@ =~= input@.take(i as int).map_values(|c: char| to_halfwidth(c)));
            }
        }
        proof {
            assert(input@.take(n as int) =~= input@);
        }
        chars_to_string(&out)
    }
}

} // verus!
