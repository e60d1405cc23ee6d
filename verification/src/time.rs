//! Civil (calendar) date and time arithmetic.
//!
//! Times of day and calendar dates are held as plain integer fields; the
//! proleptic Gregorian day count below turns them into linear day, minute
//! and second scales, which is all the schedule logic needs for comparing
//! instants and measuring durations.

use vstd::prelude::*;

verus! {

/// A calendar date with a time of day, no time zone attached.
#[derive(Debug, Clone, Copy, PartialEq, Eq, Structural)]
pub struct CivilDateTime {
    pub year: i64,
    pub month: u8,
    pub day: u8,
    pub hour: u8,
    pub minute: u8,
    pub second: u8,
}

/// Gregorian leap-year rule.
pub open spec fn is_leap_year(y: int) -> bool {
    (y % 4 == 0 && y % 100 != 0) || y % 400 == 0
}

/// Number of days in month `m` of year `y` (1-based months).
pub open spec fn days_in_month(y: int, m: int) -> int {
    if m == 2 {
        if is_leap_year(y) {
            29
        } else {
            28
        }
    } else if m == 4 || m == 6 || m == 9 || m == 11 {
        30
    } else {
        31
    }
}

/// Days in year `y` before the first of month `m`.
pub open spec fn days_before_month(y: int, m: int) -> int
    decreases m,
{
    if m <= 1 {
        0
    } else {
        days_before_month(y, m - 1) + days_in_month(y, m - 1)
    }
}

/// Days from the first of year 0 to the first of year `y`
/// (proleptic Gregorian, `y >= 0`).
pub open spec fn days_before_year(y: int) -> int {
    365 * y + (y + 3) / 4 - (y + 99) / 100 + (y + 399) / 400
}

/// Day index of a civil date on the linear scale starting at 0000-01-01.
pub open spec fn day_number(y: int, m: int, d: int) -> int {
    days_before_year(y) + days_before_month(y, m) + d - 1
}

/// The fields lie in their calendar ranges; years are kept to four digits,
/// which is all the accepted textual forms can carry.
pub open spec fn civil_valid(c: CivilDateTime) -> bool {
    &&& 0 <= c.year <= 9999
    &&& 1 <= c.month <= 12
    &&& 1 <= c.day <= days_in_month(c.year as int, c.month as int)
    &&& c.hour < 24
    &&& c.minute < 60
    &&& c.second < 60
}

/// Position of a civil instant on a linear scale of seconds.
pub open spec fn total_seconds(c: CivilDateTime) -> int {
    day_number(c.year as int, c.month as int, c.day as int) * 86400 + c.hour * 3600 + c.minute * 60
        + c.second
}

/// Day number of 1970-01-01, the origin of epoch time.
pub open spec fn epoch_day_number() -> int {
    day_number(1970, 1, 1)
}

/// Seconds since 1970-01-01T00:00:00, reading the civil fields as UTC.
pub open spec fn epoch_seconds_of(c: CivilDateTime) -> int {
    total_seconds(c) - epoch_day_number() * 86400
}

fn days_in_month_exec(y: i64, m: u8) -> (r: u8)
    requires
        0 <= y <= 9999,
    ensures
        r as int == days_in_month(y as int, m as int),
{
    if m == 2 {
        if (y % 4 == 0 && y % 100 != 0) || y % 400 == 0 {
            29
        } else {
            28
        }
    } else if m == 4 || m == 6 || m == 9 || m == 11 {
        30
    } else {
        31
    }
}

fn days_before_month_exec(y: i64, m: u8) -> (r: u64)
    requires
        0 <= y <= 9999,
        m <= 12,
    ensures
        r as int == days_before_month(y as int, m as int),
        r <= 4392,
{
    let mut r: u64 = 0;
    let mut k: u8 = 1;
    while k < m
        invariant
            0 <= y <= 9999,
            m <= 12,
            1 <= k,
            k <= m || k == 1,
            r as int == days_before_month(y as int, k as int),
            r as int <= 366 * (k as int - 1),
        decreases m as int - k as int,
    {
        let dm: u8 = days_in_month_exec(y, k);
        r = r + (dm as u64);
        k += 1;
    }
    r
}

fn days_before_year_exec(y: i64) -> (r: u64)
    requires
        0 <= y <= 9999,
    ensures
        r as int == days_before_year(y as int),
        r <= 3660000,
{
    let yu: u64 = y as u64;
    let r: u64 = 365 * yu + (yu + 3) / 4 - (yu + 99) / 100 + (yu + 399) / 400;
    assert(r as int == days_before_year(y as int)) by {
        assert((yu + 3) / 4 as int == (y + 3) / 4);
        assert((yu + 99) / 100 as int == (y + 99) / 100);
        assert((yu + 399) / 400 as int == (y + 399) / 400);
    }
    r
}

/// Day index of a valid civil date, computed on the linear day scale.
pub fn day_number_exec(c: &CivilDateTime) -> (r: i64)
    requires
        civil_valid(*c),
    ensures
        r as int == day_number(c.year as int, c.month as int, c.day as int),
        0 <= r <= 4000000,
{
    let by: u64 = days_before_year_exec(c.year);
    let bm: u64 = days_before_month_exec(c.year, c.month);
    let dn: u64 = by + bm + (c.day as u64) - 1;
    dn as i64
}

/// Seconds since the epoch of a valid civil instant read as UTC.
pub fn epoch_seconds_exec(c: &CivilDateTime) -> (r: i64)
    requires
        civil_valid(*c),
    ensures
        r as int == epoch_seconds_of(*c),
        -62167219200 <= r <= 283432867199,
{
    let dn: i64 = day_number_exec(c);
    dn * 86400 - 719528 * 86400 + (c.hour as i64) * 3600 + (c.minute as i64) * 60 + (
    c.second as i64)
}

/// Second index of a valid civil instant on the linear second scale.
pub fn total_seconds_exec(c: &CivilDateTime) -> (r: i64)
    requires
        civil_valid(*c),
    ensures
        r as int == total_seconds(*c),
        0 <= r,
{
    let dn: i64 = day_number_exec(c);
    dn * 86400 + (c.hour as i64) * 3600 + (c.minute as i64) * 60 + (c.second as i64)
}

/// Civil reading of a 19-character timestamp `YYYY-MM-DDTHH:MM:SS`.
pub open spec fn civil_of_iso_basic(t: Seq<char>) -> CivilDateTime {
    CivilDateTime {
        year: crate::text::digits_val(t.subrange(0, 4)) as i64,
        month: crate::text::digits_val(t.subrange(5, 7)) as u8,
        day: crate::text::digits_val(t.subrange(8, 10)) as u8,
        hour: crate::text::digits_val(t.subrange(11, 13)) as u8,
        minute: crate::text::digits_val(t.subrange(14, 16)) as u8,
        second: crate::text::digits_val(t.subrange(17, 19)) as u8,
    }
}

/// Shape check for the dash-and-colon separated timestamp form.
pub open spec fn iso_basic_ok(t: Seq<char>) -> bool {
    &&& t.len() == 19
    &&& t[4] == '-'
    &&& t[7] == '-'
    &&& t[10] == 'T'
    &&& t[13] == ':'
    &&& t[16] == ':'
    &&& crate::text::all_digits(t.subrange(0, 4))
    &&& crate::text::all_digits(t.subrange(5, 7))
    &&& crate::text::all_digits(t.subrange(8, 10))
    &&& crate::text::all_digits(t.subrange(11, 13))
    &&& crate::text::all_digits(t.subrange(14, 16))
    &&& crate::text::all_digits(t.subrange(17, 19))
    &&& civil_valid(civil_of_iso_basic(t))
}

/// Reading of the separated timestamp form `YYYY-MM-DDTHH:MM:SS`.
pub open spec fn parse_iso_basic_spec(s: Seq<char>) -> Option<CivilDateTime> {
    if iso_basic_ok(s) {
        Some(civil_of_iso_basic(s))
    } else {
        None
    }
}

/// Parse a timestamp of the separated form `YYYY-MM-DDTHH:MM:SS`.
pub fn parse_iso_basic(s: &Vec<char>) -> (r: Option<CivilDateTime>)
    ensures
        r == parse_iso_basic_spec(s@),
{
    if s.len() != 19 {
        return None;
    }
    if s[4] != '-' || s[7] != '-' || s[10] != 'T' || s[13] != ':' || s[16] != ':' {
        return None;
    }
    let y = crate::text::parse_num(s, 0, 4);
    let mo = crate::text::parse_num(s, 5, 7);
    let d = crate::text::parse_num(s, 8, 10);
    let h = crate::text::parse_num(s, 11, 13);
    let mi = crate::text::parse_num(s, 14, 16);
    let sec = crate::text::parse_num(s, 17, 19);
    match (y, mo, d, h, mi, sec) {
        (Some(y), Some(mo), Some(d), Some(h), Some(mi), Some(sec)) => {
            let c = CivilDateTime {
                year: y as i64,
                month: mo as u8,
                day: d as u8,
                hour: h as u8,
                minute: mi as u8,
                second: sec as u8,
            };
            assert(c == civil_of_iso_basic(s@));
            if civil_valid_exec(&c) {
                Some(c)
            } else {
                None
            }
        },
        _ => {
            assert(!iso_basic_ok(s@));
            None
        },
    }
}

/// Runtime check of `civil_valid`.
pub fn civil_valid_exec(c: &CivilDateTime) -> (r: bool)
    ensures
        r == civil_valid(*c),
{
    0 <= c.year && c.year <= 9999 && 1 <= c.month && c.month <= 12 && 1 <= c.day && c.day
        <= days_in_month_exec(c.year, c.month) && c.hour < 24 && c.minute < 60 && c.second < 60
}

} // verus!
