//! Reading and writing unsigned numbers in a radix between two and sixteen:
//! the arithmetic core behind the number-base conversions.

use vstd::prelude::*;

use crate::text::chars_to_string;

verus! {

/// Why a numeral fails to parse.
#[derive(Debug, PartialEq, Eq)]
pub enum ParseNumError {
    /// No digits: the numeral is empty, or only a sign.
    Empty,
    /// A character that is no digit of the radix.
    InvalidDigit,
    /// The value does not fit in a machine word.
    Overflow,
}

/// The value of `c` as a digit, in any radix: `'0'`–`'9'` count zero to
/// nine, letters of either case count ten upward.
pub open spec fn char_digit(c: char) -> Option<nat> {
    if '0' <= c && c <= '9' {
        Some((c as int - '0' as int) as nat)
    } else if 'a' <= c && c <= 'z' {
        Some((c as int - 'a' as int + 10) as nat)
    } else if 'A' <= c && c <= 'Z' {
        Some((c as int - 'A' as int + 10) as nat)
    } else {
        None
    }
}

/// The value of `c` as a digit of radix `base`, if it is one.
pub open spec fn digit_value(c: char, base: nat) -> Option<nat> {
    match char_digit(c) {
        Some(d) => if d < base {
            Some(d)
        } else {
            None
        },
        None => None,
    }
}

/// The digit characters, upper case, for values zero to fifteen.
pub open spec fn digit_to_char(d: nat) -> char {
    if d == 0 {
        '0'
    } else if d == 1 {
        '1'
    } else if d == 2 {
        '2'
    } else if d == 3 {
        '3'
    } else if d == 4 {
        '4'
    } else if d == 5 {
        '5'
    } else if d == 6 {
        '6'
    } else if d == 7 {
        '7'
    } else if d == 8 {
        '8'
    } else if d == 9 {
        '9'
    } else if d == 10 {
        'A'
    } else if d == 11 {
        'B'
    } else if d == 12 {
        'C'
    } else if d == 13 {
        'D'
    } else if d == 14 {
        'E'
    } else if d == 15 {
        'F'
    } else {
        '0'
    }
}

/// The digits of `n` in radix `base`, most significant first; zero has no
/// digits.
pub open spec fn nat_to_digits(n: nat, base: nat) -> Seq<nat>
    decreases n,
    via nat_to_digits_decreases
{
    if base < 2 || n == 0 {
        Seq::empty()
    } else {
        nat_to_digits(n / base, base).push(n % base)
    }
}

#[via_fn]
proof fn nat_to_digits_decreases(n: nat, base: nat) {
    if !(base < 2 || n == 0) {
        vstd::arithmetic::div_mod::lemma_div_is_strictly_smaller(n as int, base as int);
    }
}

/// The numeral of `n` in radix `base`: its digits as characters, with `"0"`
/// for zero and no leading zeros otherwise.
pub open spec fn radix_string(n: nat, base: nat) -> Seq<char> {
    if n == 0 {
        seq!['0']
    } else {
        nat_to_digits(n, base).map_values(|d: nat| digit_to_char(d))
    }
}

/// One scan of a numeral's digits from position `i` on, with the value of the
/// digits already read in `acc`: exactly how the parser walks the input, as a
/// mathematical function.
pub open spec fn parse_loop_spec(s: Seq<char>, i: int, acc: nat, base: nat) -> Result<
    u64,
    ParseNumError,
>
    decreases s.len() - i,
{
    if !(0 <= i < s.len()) {
        Ok(acc as u64)
    } else {
        match digit_value(s[i], base) {
            None => Err(ParseNumError::InvalidDigit),
            Some(d) => if acc * base + d > u64::MAX {
                Err(ParseNumError::Overflow)
            } else {
                parse_loop_spec(s, i + 1, acc * base + d, base)
            },
        }
    }
}

/// What parsing a whole numeral yields: an optional leading `'+'`, then at
/// least one digit of the radix, provided the value fits a machine word.
pub open spec fn spec_parse_radix(s: Seq<char>, base: nat) -> Result<u64, ParseNumError> {
    let body = if s.len() > 0 && s[0] == '+' {
        s.skip(1)
    } else {
        s
    };
    if body.len() == 0 {
        Err(ParseNumError::Empty)
    } else {
        parse_loop_spec(body, 0, 0, base)
    }
}

/// The number a digit sequence denotes, most significant digit first.
pub open spec fn digits_to_nat(ds: Seq<nat>, base: nat) -> nat
    decreases ds.len(),
{
    if ds.len() == 0 {
        0
    } else {
        digits_to_nat(ds.drop_last(), base) * base + ds.last()
    }
}

/// `nat_to_digits` writes digits below the radix, none of them leading zeros,
/// and `digits_to_nat` reads their value back.
pub proof fn lemma_nat_to_digits_value(n: nat, base: nat)
    requires
        2 <= base,
    ensures
        digits_to_nat(nat_to_digits(n, base), base) == n,
        forall|i: int|
            0 <= i < nat_to_digits(n, base).len() ==> #[trigger] nat_to_digits(n, base)[i] < base,
        n > 0 ==> nat_to_digits(n, base).len() > 0,
    decreases n,
{
    if n > 0 {
        vstd::arithmetic::div_mod::lemma_div_is_strictly_smaller(n as int, base as int);
        lemma_nat_to_digits_value(n / base, base);
        let ds = nat_to_digits(n, base);
        assert(ds == nat_to_digits(n / base, base).push(n % base));
        assert(ds.drop_last() =~= nat_to_digits(n / base, base));
        assert(ds.last() == n % base);
        assert(digits_to_nat(ds, base) == digits_to_nat(ds.drop_last(), base) * base + ds.last());
        assert(digits_to_nat(ds.drop_last(), base) == n / base);
        vstd::arithmetic::div_mod::lemma_fundamental_div_mod(n as int, base as int);
        assert((n / base) * base + n % base == n);
    }
}

/// A prefix of a digit sequence is worth no more than the whole.
proof fn lemma_digits_prefix_le(ds: Seq<nat>, base: nat, j: int)
    requires
        2 <= base,
        0 <= j <= ds.len(),
    ensures
        digits_to_nat(ds.take(j), base) <= digits_to_nat(ds, base),
    decreases ds.len() - j,
{
    if j == ds.len() {
        assert(ds.take(j) =~= ds);
    } else {
        lemma_digits_prefix_le(ds, base, j + 1);
        let p = ds.take(j + 1);
        assert(p.drop_last() =~= ds.take(j));
        assert(p.last() == ds[j]);
        let v = digits_to_nat(ds.take(j), base);
        assert(v <= v * base) by (nonlinear_arith)
            requires
                2 <= base,
        ;
    }
}

/// From position `i` on, the parsing scan turns the digit characters of `ds`
/// into the value of `ds`, never overflowing, provided that value fits.
proof fn lemma_parse_digit_chars(ds: Seq<nat>, base: nat, i: int)
    requires
        2 <= base <= 16,
        0 <= i <= ds.len(),
        forall|j: int| 0 <= j < ds.len() ==> #[trigger] ds[j] < base,
        digits_to_nat(ds, base) <= u64::MAX,
    ensures
        parse_loop_spec(
            ds.map_values(|d: nat| digit_to_char(d)),
            i,
            digits_to_nat(ds.take(i), base),
            base,
        ) == Ok::<u64, ParseNumError>(digits_to_nat(ds, base) as u64),
    decreases ds.len() - i,
{
    let c = ds.map_values(|d: nat| digit_to_char(d));
    let acc = digits_to_nat(ds.take(i), base);
    if i == ds.len() {
        assert(ds.take(i) =~= ds);
    } else {
        let d = ds[i];
        assert(c[i] == digit_to_char(d));
        assert(char_digit(digit_to_char(d)) == Some(d));
        assert(digit_value(c[i], base) == Some(d));
        let p = ds.take(i + 1);
        assert(p.drop_last() =~= ds.take(i));
        assert(p.last() == ds[i]);
        assert(digits_to_nat(ds.take(i + 1), base) == acc * base + d);
        lemma_digits_prefix_le(ds, base, i + 1);
        lemma_parse_digit_chars(ds, base, i + 1);
    }
}

/// Law: a numeral the library wrote, it reads back to the same number.
pub proof fn lemma_format_parse_round_trip(n: u64, base: nat)
    requires
        2 <= base <= 16,
    ensures
        spec_parse_radix(radix_string(n as nat, base), base) == Ok::<u64, ParseNumError>(n),
{
    if n == 0 {
        let s = radix_string(0, base);
        assert(s == seq!['0']);
        assert(s[0] == '0');
        assert(char_digit('0') == Some(0nat));
        assert(digit_value(s[0], base) == Some(0nat));
        assert(0 * base + 0 == 0);
        assert(parse_loop_spec(s, 0, 0, base) == parse_loop_spec(s, 1, 0, base));
    } else {
        lemma_nat_to_digits_value(n as nat, base);
        let ds = nat_to_digits(n as nat, base);
        let s = radix_string(n as nat, base);
        assert(s == ds.map_values(|d: nat| digit_to_char(d)));
        assert(s[0] == digit_to_char(ds[0]));
        assert(s[0] != '+');
        assert(ds.take(0) =~= Seq::<nat>::empty());
        lemma_parse_digit_chars(ds, base, 0);
    }
}

/// A numeral of two characters is worth less than the radix squared.
pub proof fn lemma_parse_two_chars(s: Seq<char>, base: nat)
    requires
        s.len() == 2,
        2 <= base <= 16,
    ensures
        spec_parse_radix(s, base) matches Ok(v) ==> (v as nat) < base * base,
{
    assert(base <= base * base) by (nonlinear_arith)
        requires
            2 <= base,
    ;
    if s[0] == '+' {
        let body = s.skip(1);
        assert(body.len() == 1);
        assert(body[0] == s[1]);
        match digit_value(body[0], base) {
            Some(d) => {
                assert(0 * base + d == d);
                assert(parse_loop_spec(body, 0, 0, base) == parse_loop_spec(body, 1, d, base));
                assert(parse_loop_spec(body, 1, d, base) == Ok::<u64, ParseNumError>(d as u64));
            },
            None => {
                assert(parse_loop_spec(body, 0, 0, base) == Err::<u64, ParseNumError>(
                    ParseNumError::InvalidDigit,
                ));
            },
        }
    } else {
        match digit_value(s[0], base) {
            Some(d0) => {
                assert(0 * base + d0 == d0);
                assert(parse_loop_spec(s, 0, 0, base) == parse_loop_spec(s, 1, d0, base));
                match digit_value(s[1], base) {
                    Some(d1) => {
                        assert(d0 * base + d1 < base * base && base * base <= 256)
                            by (nonlinear_arith)
                            requires
                                d0 < base,
                                d1 < base,
                                2 <= base <= 16,
                        ;
                        assert(parse_loop_spec(s, 1, d0, base) == parse_loop_spec(
                            s,
                            2,
                            d0 * base + d1,
                            base,
                        ));
                        assert(parse_loop_spec(s, 2, d0 * base + d1, base)
                            == Ok::<u64, ParseNumError>((d0 * base + d1) as u64));
                    },
                    None => {},
                }
            },
            None => {},
        }
    }
}

/// The digit value of `c`, executable.
pub(crate) fn char_digit_exec(c: char) -> (r: Option<u8>)
    ensures
        match r {
            Some(d) => char_digit(c) == Some(d as nat),
            None => char_digit(c) is None,
        },
{
    if c >= '0' && c <= '9' {
        Some(((c as u32) - ('0' as u32)) as u8)
    } else if c >= 'a' && c <= 'z' {
        Some(((c as u32) - ('a' as u32) + 10) as u8)
    } else if c >= 'A' && c <= 'Z' {
        Some(((c as u32) - ('A' as u32) + 10) as u8)
    } else {
        None
    }
}

/// The digit character for a value below sixteen, executable.
pub(crate) fn digit_to_char_exec(d: u8) -> (c: char)
    requires
        d < 16,
    ensures
        c == digit_to_char(d as nat),
{
    match d {
        0 => '0',
        1 => '1',
        2 => '2',
        3 => '3',
        4 => '4',
        5 => '5',
        6 => '6',
        7 => '7',
        8 => '8',
        9 => '9',
        10 => 'A',
        11 => 'B',
        12 => 'C',
        13 => 'D',
        14 => 'E',
        _ => 'F',
    }
}

/// Reads a numeral of radix `base`, as `spec_parse_radix` describes.
pub fn parse_radix(s: &str, base: u64) -> (r: Result<u64, ParseNumError>)
    requires
        2 <= base <= 16,
    ensures
        r == spec_parse_radix(s@, base as nat),
{
    let n = s.unicode_len();
    let start: usize = if n > 0 && s.get_char(0) == '+' {
        1
    } else {
        0
    };
    let ghost body = if start == 1 {
        s@.skip(1)
    } else {
        s@
    };
    proof {
        assert(body.len() == n - start);
        assert(forall|j: int| 0 <= j < body.len() ==> body[j] == s@[j + start]);
        assert(spec_parse_radix(s@, base as nat) == (if body.len() == 0 {
            Err::<u64, ParseNumError>(ParseNumError::Empty)
        } else {
            parse_loop_spec(body, 0, 0, base as nat)
        }));
    }
    if start == n {
        return Err(ParseNumError::Empty);
    }
    let ghost target = parse_loop_spec(body, 0, 0, base as nat);
    let mut acc: u64 = 0;
    let mut i = start;
    while i < n
        invariant
            start <= i <= n,
            start == 0 || start == 1,
            n == s@.len(),
            2 <= base <= 16,
            body == (if start == 1 {
                s@.skip(1)
            } else {
                s@
            }),
            target == parse_loop_spec(body, i - start, acc as nat, base as nat),
            spec_parse_radix(s@, base as nat) == target,
        decreases n - i,
    {
        proof {
            assert(body[i - start] == s@[i as int]);
        }
        let c = s.get_char(i);
        let d: u8 = match char_digit_exec(c) {
            None => {
                proof {
                    assert(digit_value(body[i - start], base as nat) is None);
                }
                return Err(ParseNumError::InvalidDigit);
            },
            Some(d) => d,
        };
        if d as u64 >= base {
            proof {
                assert(digit_value(body[i - start], base as nat) is None);
            }
            return Err(ParseNumError::InvalidDigit);
        }
        let dd = d as u64;
        let limit = (u64::MAX - dd) / base;
        proof {
            vstd::arithmetic::div_mod::lemma_fundamental_div_mod(
                (u64::MAX - dd) as int,
                base as int,
            );
        }
        if acc > limit {
            proof {
                let q = ((u64::MAX - dd) as int) / (base as int);
                vstd::arithmetic::mul::lemma_mul_inequality(q + 1, acc as int, base as int);
                assert((q + 1) * (base as int) == q * (base as int) + base as int)
                    by (nonlinear_arith);
                assert((acc as int) * (base as int) + dd > u64::MAX);
                assert(parse_loop_spec(body, i - start, acc as nat, base as nat)
                    == Err::<u64, ParseNumError>(ParseNumError::Overflow));
            }
            return Err(ParseNumError::Overflow);
        }
        proof {
            let q = ((u64::MAX - dd) as int) / (base as int);
            vstd::arithmetic::mul::lemma_mul_inequality(acc as int, q, base as int);
            assert((acc as int) * (base as int) + dd <= u64::MAX);
        }
        acc = acc * base + dd;
        i += 1;
    }
    Ok(acc)
}

/// Writes `n` as a numeral of radix `base`, as `radix_string` describes.
pub fn format_radix(n: u64, base: u64) -> (r: String)
    requires
        2 <= base <= 16,
    ensures
        r@ == radix_string(n as nat, base as nat),
{
    if n == 0 {
        let zero: Vec<char> = vec!['0'];
        let r = chars_to_string(&zero);
        proof {
            assert(r@ =~= radix_string(0, base as nat));
        }
        return r;
    }
    let mut low_first: Vec<u8> = Vec::new();
    let mut m = n;
    while m > 0
        invariant
            2 <= base <= 16,
            nat_to_digits(n as nat, base as nat) == nat_to_digits(m as nat, base as nat).add(
                low_first@.reverse().map_values(|d: u8| d as nat),
            ),
            forall|j: int| 0 <= j < low_first@.len() ==> #[trigger] low_first@[j] < 16,
            m == 0 ==> low_first@.len() > 0,
            n > 0,
        decreases m,
    {
        let ghost m0 = m;
        let ghost ds0 = low_first@;
        let d = (m % base) as u8;
        low_first.push(d);
        m = m / base;
        proof {
            vstd::arithmetic::div_mod::lemma_fundamental_div_mod(m0 as int, base as int);
            vstd::arithmetic::div_mod::lemma_div_is_strictly_smaller(m0 as int, base as int);
            assert(m < m0);
            assert(nat_to_digits(m0 as nat, base as nat) == nat_to_digits(
                m as nat,
                base as nat,
            ).push(m0 as nat % base as nat));
            assert(low_first@.reverse() =~= seq![d].add(ds0.reverse()));
            assert(low_first@.reverse().map_values(|x: u8| x as nat) =~= seq![d as nat].add(
                ds0.reverse().map_values(|x: u8| x as nat),
            ));
            assert(nat_to_digits(m as nat, base as nat).add(
                low_first@.reverse().map_values(|x: u8| x as nat),
            ) =~= nat_to_digits(m as nat, base as nat).push(m0 as nat % base as nat).add(
                ds0.reverse().map_values(|x: u8| x as nat),
            ));
        }
    }
    let ghost digits = nat_to_digits(n as nat, base as nat);
    proof {
        assert(nat_to_digits(0, base as nat) == Seq::<nat>::empty());
        assert(digits =~= low_first@.reverse().map_values(|d: u8| d as nat));
    }
    let k = low_first.len();
    let mut out: Vec<char> = Vec::new();
    let mut j = k;
    while j > 0
        invariant
            j <= k,
            k == low_first@.len(),
            digits == low_first@.reverse().map_values(|d: u8| d as nat),
            forall|t: int| 0 <= t < k ==> #[trigger] low_first@[t] < 16,
            out@ == digits.take(k - j).map_values(|d: nat| digit_to_char(d)),
        decreases j,
    {
        let ghost out0 = out@;
        let c = digit_to_char_exec(low_first[j - 1]);
        out.push(c);
        j -= 1;
        proof {
            assert(digits[k - 1 - j as int] == low_first@[j as int] as nat);
            assert(out@ =~= digits.take(k - j).map_values(|d: nat| digit_to_char(d)));
        }
    }
    proof {
        assert(digits.take(k as int) =~= digits);
    }
    let r = chars_to_string(&out);
    r
}

} // verus!
