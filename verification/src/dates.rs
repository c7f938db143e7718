//! Calendar dates as plain values. A date custom field arrives as a bare
//! `YYYY-MM-DD` string and is normalized to a day in the proleptic Gregorian
//! calendar; the calendar rule itself is checked through `chrono`.

use vstd::prelude::*;
use vstd::string::StrSliceExecFns;

verus! {

/// A calendar day, at midnight UTC.
#[derive(Clone, Copy, PartialEq, Eq, Structural, Debug)]
pub struct Date {
    pub year: i32,
    pub month: u8,
    pub day: u8,
}

pub open spec fn is_leap_year(y: int) -> bool {
    y % 4 == 0 && (y % 100 != 0 || y % 400 == 0)
}

pub open spec fn days_in_month(y: int, m: int) -> int {
    if m == 2 {
        if is_leap_year(y) {
            29
        } else {
            28
        }
    } else if m == 4 || m == 6 || m == 9 || m == 11 {
        30
    } else {
        31
    }
}

/// Validity of a calendar day in the proleptic Gregorian calendar, for the
/// four-digit years that a `YYYY-MM-DD` field can carry.
pub open spec fn valid_ymd(y: int, m: int, d: int) -> bool {
    0 <= y <= 9999 && 1 <= m <= 12 && 1 <= d <= days_in_month(y, m)
}

impl Date {
    pub open spec fn wf(self) -> bool {
        valid_ymd(self.year as int, self.month as int, self.day as int)
    }
}

/// Relies on chrono's `NaiveDate::from_ymd_opt`: for years in `0..=9999`
/// (well inside chrono's supported range) it returns `Some` exactly when the
/// (year, month, day) triple is a real proleptic-Gregorian calendar day.
#[verifier::external_body]
fn ymd_is_valid(y: i32, m: u8, d: u8) -> (b: bool)
    requires
        0 <= y <= 9999,
    ensures
        b == valid_ymd(y as int, m as int, d as int),
{
    chrono::NaiveDate::from_ymd_opt(y, m as u32, d as u32).is_some()
}

pub open spec fn is_digit(c: char) -> bool {
    '0' <= c && c <= '9'
}

pub open spec fn digit_val(c: char) -> int {
    c as int - '0' as int
}

/// Shape of a bare date string: exactly `YYYY-MM-DD`.
pub open spec fn date_shape(s: Seq<char>) -> bool {
    &&& s.len() == 10
    &&& is_digit(s[0])
    &&& is_digit(s[1])
    &&& is_digit(s[2])
    &&& is_digit(s[3])
    &&& s[4] == '-'
    &&& is_digit(s[5])
    &&& is_digit(s[6])
    &&& s[7] == '-'
    &&& is_digit(s[8])
    &&& is_digit(s[9])
}

pub open spec fn year_of(s: Seq<char>) -> int {
    1000 * digit_val(s[0]) + 100 * digit_val(s[1]) + 10 * digit_val(s[2]) + digit_val(s[3])
}

pub open spec fn month_of(s: Seq<char>) -> int {
    10 * digit_val(s[5]) + digit_val(s[6])
}

pub open spec fn day_of(s: Seq<char>) -> int {
    10 * digit_val(s[8]) + digit_val(s[9])
}

/// What parsing a bare date string yields: the day it denotes, when the
/// string has the `YYYY-MM-DD` shape and names a real calendar day.
pub open spec fn spec_parse_date(s: Seq<char>) -> Option<Date> {
    if date_shape(s) && valid_ymd(year_of(s), month_of(s), day_of(s)) {
        Some(
            Date {
                year: year_of(s) as i32,
                month: month_of(s) as u8,
                day: day_of(s) as u8,
            },
        )
    } else {
        None
    }
}

/// The character of one decimal digit.
pub open spec fn char_of_digit(d: int) -> char {
    if d == 0 {
        '0'
    } else if d == 1 {
        '1'
    } else if d == 2 {
        '2'
    } else if d == 3 {
        '3'
    } else if d == 4 {
        '4'
    } else if d == 5 {
        '5'
    } else if d == 6 {
        '6'
    } else if d == 7 {
        '7'
    } else if d == 8 {
        '8'
    } else {
        '9'
    }
}

/// The decimal rendering of a number, without leading zeros.
pub open spec fn spec_decimal(n: int) -> Seq<char>
    decreases n,
{
    if n < 10 {
        seq![char_of_digit(n)]
    } else {
        spec_decimal(n / 10).push(char_of_digit(n % 10))
    }
}

/// The decimal rendering padded to at least two digits.
pub open spec fn spec_decimal2(n: int) -> Seq<char> {
    if n < 10 {
        seq!['0'].push(char_of_digit(n))
    } else {
        spec_decimal(n)
    }
}

/// Renders one decimal digit.
fn digit_char(d: u32) -> (c: char)
    requires
        d <= 9,
    ensures
        c == char_of_digit(d as int),
{
    if d == 0 {
        '0'
    } else if d == 1 {
        '1'
    } else if d == 2 {
        '2'
    } else if d == 3 {
        '3'
    } else if d == 4 {
        '4'
    } else if d == 5 {
        '5'
    } else if d == 6 {
        '6'
    } else if d == 7 {
        '7'
    } else if d == 8 {
        '8'
    } else {
        '9'
    }
}

/// Renders a number in decimal, without leading zeros.
pub fn decimal_string(n: u32) -> (r: Vec<char>)
    ensures
        r@ == spec_decimal(n as int),
    decreases n,
{
    if n < 10 {
        let mut v: Vec<char> = Vec::new();
        v.push(digit_char(n));
        proof {
            assert(v@ =~= spec_decimal(n as int));
        }
        v
    } else {
        let mut v = decimal_string(n / 10);
        v.push(digit_char(n % 10));
        v
    }
}

/// Renders a number in decimal, padded to at least two digits.
pub fn decimal2_string(n: u32) -> (r: Vec<char>)
    ensures
        r@ == spec_decimal2(n as int),
{
    if n < 10 {
        let mut v: Vec<char> = Vec::new();
        v.push('0');
        v.push(digit_char(n));
        proof {
            assert(v@ =~= spec_decimal2(n as int));
        }
        v
    } else {
        decimal_string(n)
    }
}

/// A day count for comparing calendar days: the number of days from a
/// fixed reference day to the given day, by the usual civil-calendar
/// formula over eras of 400 years.
pub open spec fn spec_day_number(d: Date) -> int {
    let y = d.year + 400 - (if d.month <= 2 {
        1int
    } else {
        0int
    });
    let era = y / 400;
    let yoe = y % 400;
    let mshift = (if d.month > 2 {
        d.month - 3
    } else {
        d.month + 9
    });
    let doy = (153 * mshift + 2) / 5 + d.day - 1;
    let doe = yoe * 365 + yoe / 4 - yoe / 100 + doy;
    era * 146097 + doe
}

impl Date {
    /// The day count of this day, for ordering and distance checks.
    pub fn day_number(&self) -> (r: u32)
        requires
            self.wf(),
        ensures
            r == spec_day_number(*self),
    {
        let y: u32 = (self.year as u32) + 400 - (if self.month <= 2 {
            1
        } else {
            0
        });
        let era: u32 = y / 400;
        let yoe: u32 = y % 400;
        let mshift: u32 = if self.month > 2 {
            (self.month - 3) as u32
        } else {
            (self.month + 9) as u32
        };
        let doy: u32 = (153 * mshift + 2) / 5 + (self.day as u32) - 1;
        let doe: u32 = yoe * 365 + yoe / 4 - yoe / 100 + doy;
        era * 146097 + doe
    }
}

/// Reads one decimal digit character.
fn digit_of_char(c: char) -> (d: u32)
    requires
        is_digit(c),
    ensures
        d == digit_val(c),
        d <= 9,
{
    (c as u32) - ('0' as u32)
}

/// Parses a bare `YYYY-MM-DD` date string into a calendar day at midnight
/// UTC; `None` for any string of another shape or naming no real day.
pub fn parse_date(s: &str) -> (r: Option<Date>)
    ensures
        r == spec_parse_date(s@),
        r matches Some(d) ==> d.wf(),
{
    if s.unicode_len() != 10 {
        return None;
    }
    let c0 = s.get_char(0);
    let c1 = s.get_char(1);
    let c2 = s.get_char(2);
    let c3 = s.get_char(3);
    let c4 = s.get_char(4);
    let c5 = s.get_char(5);
    let c6 = s.get_char(6);
    let c7 = s.get_char(7);
    let c8 = s.get_char(8);
    let c9 = s.get_char(9);
    if !(c0 >= '0' && c0 <= '9' && c1 >= '0' && c1 <= '9' && c2 >= '0' && c2 <= '9' && c3 >= '0'
        && c3 <= '9') {
        return None;
    }
    if c4 != '-' || c7 != '-' {
        return None;
    }
    if !(c5 >= '0' && c5 <= '9' && c6 >= '0' && c6 <= '9' && c8 >= '0' && c8 <= '9' && c9 >= '0'
        && c9 <= '9') {
        return None;
    }
    let year: u32 = 1000 * digit_of_char(c0) + 100 * digit_of_char(c1) + 10 * digit_of_char(c2)
        + digit_of_char(c3);
    let month: u32 = 10 * digit_of_char(c5) + digit_of_char(c6);
    let day: u32 = 10 * digit_of_char(c8) + digit_of_char(c9);
    if ymd_is_valid(year as i32, month as u8, day as u8) {
        Some(Date { year: year as i32, month: month as u8, day: day as u8 })
    } else {
        None
    }
}

} // verus!
