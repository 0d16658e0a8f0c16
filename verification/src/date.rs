//! Date and time vocabulary: the format patterns dates are written in and the
//! units they are stepped by. The arithmetic on actual calendar dates lives in
//! the application shell, which works on a calendar library's types; here
//! stands what is plain data.

use vstd::prelude::*;

verus! {

/// A date or time layout, named by the fields it shows; `Slash` variants
/// separate the date fields with `/` instead of `-`.
pub enum DateTimeFormat {
    YmdHMS,
    YmdHM,
    YmdH,
    Ymd,
    Ym,
    Md,
    DMYHMS,
    YmdHmsSlash,
    YmdHmSlash,
    YmdHSlash,
    YmdSlash,
    YmSlash,
    MdSlash,
    DmyhmsSlash,
    Y,
    M,
    HMS,
    MS,
}

/// The `strftime`-style pattern of a layout.
pub open spec fn spec_format_pattern(f: DateTimeFormat) -> Seq<char> {
    match f {
        DateTimeFormat::YmdHMS => "%Y-%m-%d %H:%M:%S"@,
        DateTimeFormat::YmdHM => "%Y-%m-%d %H:%M"@,
        DateTimeFormat::YmdH => "%Y-%m-%d %H"@,
        DateTimeFormat::Ymd => "%Y-%m-%d"@,
        DateTimeFormat::Ym => "%Y-%m"@,
        DateTimeFormat::Md => "%m-%d"@,
        DateTimeFormat::DMYHMS => "%d-%m-%y %H:%M:%S"@,
        DateTimeFormat::YmdHmsSlash => "%Y/%m/%d %H:%M:%S"@,
        DateTimeFormat::YmdHmSlash => "%Y/%m/%d %H:%M"@,
        DateTimeFormat::YmdHSlash => "%Y/%m/%d %H"@,
        DateTimeFormat::YmdSlash => "%Y/%m/%d"@,
        DateTimeFormat::YmSlash => "%Y/%m"@,
        DateTimeFormat::MdSlash => "%m/%d"@,
        DateTimeFormat::DmyhmsSlash => "%d/%m/%y %H:%M:%S"@,
        DateTimeFormat::Y => "%Y"@,
        DateTimeFormat::M => "%m"@,
        DateTimeFormat::HMS => "%H:%M:%S"@,
        DateTimeFormat::MS => "%m:%S"@,
    }
}

impl DateTimeFormat {
    /// The `strftime`-style pattern of this layout.
    pub fn to_str(&self) -> (r: &'static str)
        ensures
            r@ == spec_format_pattern(*self),
    {
        match self {
            Self::YmdHMS => "%Y-%m-%d %H:%M:%S",
            Self::YmdHM => "%Y-%m-%d %H:%M",
            Self::YmdH => "%Y-%m-%d %H",
            Self::Ymd => "%Y-%m-%d",
            Self::Ym => "%Y-%m",
            Self::Md => "%m-%d",
            Self::DMYHMS => "%d-%m-%y %H:%M:%S",
            Self::YmdHmsSlash => "%Y/%m/%d %H:%M:%S",
            Self::YmdHmSlash => "%Y/%m/%d %H:%M",
            Self::YmdHSlash => "%Y/%m/%d %H",
            Self::YmdSlash => "%Y/%m/%d",
            Self::YmSlash => "%Y/%m",
            Self::MdSlash => "%m/%d",
            Self::DmyhmsSlash => "%d/%m/%y %H:%M:%S",
            Self::Y => "%Y",
            Self::M => "%m",
            Self::HMS => "%H:%M:%S",
            Self::MS => "%m:%S",
        }
    }
}

/// A unit a point in time can be stepped by.
pub enum TimeUnit {
    Years,
    Months,
    Days,
    Hours,
    Minutes,
    Seconds,
    Weeks,
}

} // verus!
