//! Reading a resident identity card number: eighteen characters, of which six
//! name the region, eight the birth date as `YYYYMMDD`, three the sequence,
//! and the last is a check character — a digit or `X`. The birth date must be
//! a real calendar date. The card holder's age follows from the year the call
//! is made in, which only the clock knows.

use vstd::prelude::*;

use vstd::string::StrSliceExecFns;

verus! {

/// Is `c` a decimal digit?
pub open spec fn is_digit(c: char) -> bool {
    '0' <= c && c <= '9'
}

/// The shape of a card number: seventeen digits, then a digit or `X` of
/// either case.
pub open spec fn well_formed_id(s: Seq<char>) -> bool {
    &&& s.len() == 18
    &&& forall|i: int| 0 <= i < 17 ==> is_digit(#[trigger] s[i])
    &&& (is_digit(s[17]) || s[17] == 'X' || s[17] == 'x')
}

/// The number a run of decimal digits denotes.
pub open spec fn decimal_value(s: Seq<char>) -> int
    decreases s.len(),
{
    if s.len() == 0 {
        0
    } else {
        decimal_value(s.drop_last()) * 10 + (s.last() as int - '0' as int)
    }
}

/// Divisibility by four and the century rule.
pub open spec fn is_leap_year(y: int) -> bool {
    (y % 4 == 0 && y % 100 != 0) || y % 400 == 0
}

/// How many days the month has, in the proleptic Gregorian calendar.
pub open spec fn days_in_month(y: int, m: int) -> int {
    if m == 2 {
        if is_leap_year(y) {
            29
        } else {
            28
        }
    } else if m == 4 || m == 6 || m == 9 || m == 11 {
        30
    } else {
        31
    }
}

/// Is `y-m-d` a real calendar date?
pub open spec fn valid_date(y: int, m: int, d: int) -> bool {
    1 <= m <= 12 && 1 <= d <= days_in_month(y, m)
}

/// Ten to the `n`th: bounds the value of a short digit run.
pub open spec fn pow10(n: nat) -> int
    decreases n,
{
    if n == 0 {
        1
    } else {
        10 * pow10((n - 1) as nat)
    }
}

/// A calendar date as plain numbers.
pub struct CalendarDate {
    pub year: u32,
    pub month: u8,
    pub day: u8,
}

/// What a card number tells about its holder.
pub struct IdCardInfo {
    /// The holder's date of birth.
    pub birthday: CalendarDate,
    /// Full years from the birth year to the given year, never negative.
    pub age: u32,
    /// The holder's sex, by the parity the card encodes.
    pub gender: &'static str,
}

/// Relies on `chrono::Utc::now` and `Datelike::year`: the calendar year at
/// the moment of the call, which only the clock knows.
#[verifier::external_body]
fn current_year() -> (y: i32) {
    chrono::Datelike::year(&chrono::Utc::now())
}

/// Reads the digits of `s` at `from..to` as a number.
fn decimal_of_digits(s: &str, from: usize, to: usize) -> (v: u64)
    requires
        from <= to <= s@.len(),
        to - from <= 4,
        forall|i: int| from <= i < to ==> is_digit(#[trigger] s@[i]),
    ensures
        v == decimal_value(s@.subrange(from as int, to as int)),
        v < 10000,
{
    proof {
        assert(pow10(0) == 1);
        assert(pow10(1) == 10);
        assert(pow10(2) == 100);
        assert(pow10(3) == 1000);
        assert(pow10(4) == 10000);
        assert(s@.subrange(from as int, from as int) =~= Seq::<char>::empty());
    }
    let mut v: u64 = 0;
    let mut i = from;
    while i < to
        invariant
            from <= i <= to <= s@.len(),
            to - from <= 4,
            forall|j: int| from <= j < to ==> is_digit(#[trigger] s@[j]),
            v == decimal_value(s@.subrange(from as int, i as int)),
            v < pow10((i - from) as nat),
            pow10((to - from) as nat) <= 10000,
        decreases to - i,
    {
        let c = s.get_char(i);
        let d = (c as u32) - 48;
        i += 1;
        proof {
            let sub = s@.subrange(from as int, i as int);
            assert(sub.drop_last() =~= s@.subrange(from as int, i - 1));
            assert(sub.last() == s@[i - 1]);
            let k = (i - 1 - from) as nat;
            assert(pow10(0) == 1);
            assert(pow10(1) == 10);
            assert(pow10(2) == 100);
            assert(pow10(3) == 1000);
            assert(k == 0 || k == 1 || k == 2 || k == 3);
            assert(v < 1000);
        }
        v = v * 10 + (d as u64);
    }
    proof {
        assert(pow10((to - from) as nat) <= pow10(4)) by {
            if to - from < 4 {
                assert(pow10(0) < pow10(1) < pow10(2) < pow10(3) < pow10(4));
            }
        }
    }
    v
}

/// Reading of identity card numbers.
pub struct IdCardUtil {}

impl IdCardUtil {
    /// Reads the card number against the clock's current year: `Some` exactly
    /// when the number is well formed and its birth date is a real calendar
    /// date. What the result holds — except the age, which depends on the
    /// year the call is made in — is said by `extract_id_card_info_at`.
    pub fn extract_id_card_info(id_card: &str) -> (r: Option<IdCardInfo>)
        ensures
            ({
                let s = id_card@;
                let y = decimal_value(s.subrange(6, 10));
                let m = decimal_value(s.subrange(10, 12));
                let d = decimal_value(s.subrange(12, 14));
                &&& (r is Some <==> well_formed_id(s) && valid_date(y, m, d))
                &&& (r matches Some(info) ==> {
                    &&& info.birthday.year == y
                    &&& info.birthday.month == m
                    &&& info.birthday.day == d
                    &&& info.gender@ == (if m % 2 == 0 {
                        "女"@
                    } else {
                        "男"@
                    })
                })
            }),
    {
        let year_now = current_year();
        Self::extract_id_card_info_at(id_card, year_now)
    }

    /// Reads the card number as of the given year: `Some` exactly when the
    /// number is well formed and its birth date is a real calendar date. The
    /// sex is taken from the parity of the birth month field, the age is the
    /// difference of the years, at least zero.
    pub fn extract_id_card_info_at(id_card: &str, year_now: i32) -> (r: Option<IdCardInfo>)
        ensures
            ({
                let s = id_card@;
                let y = decimal_value(s.subrange(6, 10));
                let m = decimal_value(s.subrange(10, 12));
                let d = decimal_value(s.subrange(12, 14));
                &&& (r is Some <==> well_formed_id(s) && valid_date(y, m, d))
                &&& (r matches Some(info) ==> {
                    &&& info.birthday.year == y
                    &&& info.birthday.month == m
                    &&& info.birthday.day == d
                    &&& info.age == (if year_now >= y {
                        year_now - y
                    } else {
                        0
                    })
                    &&& info.gender@ == (if m % 2 == 0 {
                        "女"@
                    } else {
                        "男"@
                    })
                })
            }),
    {
        let n = id_card.unicode_len();
        if n != 18 {
            return None;
        }
        let mut i: usize = 0;
        while i < 17
            invariant
                i <= 17,
                n == id_card@.len(),
                n == 18,
                forall|j: int| 0 <= j < i ==> is_digit(#[trigger] id_card@[j]),
            decreases 17 - i,
        {
            let c = id_card.get_char(i);
            if !(c >= '0' && c <= '9') {
                return None;
            }
            i += 1;
        }
        let last = id_card.get_char(17);
        if !((last >= '0' && last <= '9') || last == 'X' || last == 'x') {
            return None;
        }
        let year = decimal_of_digits(id_card, 6, 10);
        let month = decimal_of_digits(id_card, 10, 12);
        let day = decimal_of_digits(id_card, 12, 14);
        if month < 1 || month > 12 {
            return None;
        }
        let leap = (year % 4 == 0 && year % 100 != 0) || year % 400 == 0;
        let month_days: u64 = if month == 2 {
            if leap {
                29
            } else {
                28
            }
        } else if month == 4 || month == 6 || month == 9 || month == 11 {
            30
        } else {
            31
        };
        if day < 1 || day > month_days {
            return None;
        }
        let gender: &'static str = if month % 2 == 0 {
            "女"
        } else {
            "男"
        };
        let birth_year = year as i32;
        let age: u32 = if year_now >= birth_year {
            (year_now - birth_year) as u32
        } else {
            0
        };
        Some(
            IdCardInfo {
                birthday: CalendarDate { year: year as u32, month: month as u8, day: day as u8 },
                age,
                gender,
            },
        )
    }
}

} // verus!
