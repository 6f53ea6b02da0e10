//! Seconds since 1970 as a date and time of day, in UTC.

use vstd::prelude::*;
use vstd::string::*;

use crate::decimal;

verus! {

/// Whether a year is a leap year.
pub open spec fn is_leap(year: int) -> bool {
    (year % 4 == 0 && year % 100 != 0) || year % 400 == 0
}

/// The number of days in a year.
pub open spec fn year_days(year: int) -> int {
    if is_leap(year) {
        366
    } else {
        365
    }
}

/// The number of days in a month.
pub open spec fn month_days(year: int, month: int) -> int {
    if month == 2 {
        if is_leap(year) {
            29
        } else {
            28
        }
    } else if month == 4 || month == 6 || month == 9 || month == 11 {
        30
    } else {
        31
    }
}

/// The number of days from the start of 1970 to the start of a year.
pub open spec fn days_to_year(year: int) -> int
    decreases year - 1970,
{
    if year <= 1970 {
        0
    } else {
        days_to_year(year - 1) + year_days(year - 1)
    }
}

/// The number of days from the start of a year to the start of a month.
pub open spec fn days_to_month(year: int, month: int) -> int
    decreases month,
{
    if month <= 1 {
        0
    } else {
        days_to_month(year, month - 1) + month_days(year, month - 1)
    }
}

/// A date and time of day.
#[derive(Debug, Clone, Copy, PartialEq, Eq, Structural)]
pub struct DateTime {
    pub year: i64,
    pub month: u32,
    pub day: u32,
    pub hour: u32,
    pub minute: u32,
    pub second: u32,
}

/// Whether a date and time of day from 1970 on is one of the calendar.
pub open spec fn is_valid(t: DateTime) -> bool {
    &&& 1970 <= t.year
    &&& 1 <= t.month <= 12
    &&& 1 <= t.day <= month_days(t.year as int, t.month as int)
    &&& t.hour < 24
    &&& t.minute < 60
    &&& t.second < 60
}

/// The seconds from the start of 1970 to a date and time of day.
pub open spec fn seconds_to(t: DateTime) -> int {
    (((days_to_year(t.year as int) + days_to_month(t.year as int, t.month as int) + t.day - 1) * 24
        + t.hour) * 60 + t.minute) * 60 + t.second
}

/// The months of a year take its days.
proof fn lemma_months(year: int, month: int)
    requires
        1 <= month <= 13,
    ensures
        0 <= days_to_month(year, month) <= year_days(year),
        month == 13 ==> days_to_month(year, month) == year_days(year),
        month <= 12 ==> days_to_month(year, month) + month_days(year, month) <= year_days(year),
{
    reveal_with_fuel(days_to_month, 14);
}

proof fn lemma_years_grow(a: int, b: int)
    requires
        1970 <= a < b,
    ensures
        days_to_year(a) + year_days(a) <= days_to_year(b),
    decreases b - a,
{
    if a + 1 < b {
        lemma_years_grow(a, b - 1);
    }
}

proof fn lemma_months_grow(year: int, a: int, b: int)
    requires
        1 <= a < b <= 12,
    ensures
        days_to_month(year, a) + month_days(year, a) <= days_to_month(year, b),
    decreases b - a,
{
    if a + 1 < b {
        lemma_months_grow(year, a, b - 1);
    }
}

/// No two dates and times of day are the same number of seconds away.
pub proof fn seconds_name_one_date(a: DateTime, b: DateTime)
    requires
        is_valid(a),
        is_valid(b),
        seconds_to(a) == seconds_to(b),
    ensures
        a == b,
{
    let ya = a.year as int;
    let yb = b.year as int;
    let da = days_to_year(ya) + days_to_month(ya, a.month as int) + a.day - 1;
    let db = days_to_year(yb) + days_to_month(yb, b.month as int) + b.day - 1;
    assert(da == db && a.hour == b.hour && a.minute == b.minute && a.second == b.second);
    lemma_months(ya, a.month as int);
    lemma_months(yb, b.month as int);
    if ya < yb {
        lemma_years_grow(ya, yb);
    }
    if yb < ya {
        lemma_years_grow(yb, ya);
    }
    if a.month < b.month {
        lemma_months_grow(ya, a.month as int, b.month as int);
    }
    if b.month < a.month {
        lemma_months_grow(ya, b.month as int, a.month as int);
    }
}

fn leap(year: i64) -> (r: bool)
    requires
        1970 <= year,
    ensures
        r == is_leap(year as int),
{
    (year % 4 == 0 && year % 100 != 0) || (year % 400 == 0)
}

fn days_in(year: i64, month: u32) -> (r: i64)
    requires
        1970 <= year,
    ensures
        r == month_days(year as int, month as int),
{
    if month == 2 {
        if leap(year) {
            29
        } else {
            28
        }
    } else if month == 4 || month == 6 || month == 9 || month == 11 {
        30
    } else {
        31
    }
}

/// The date and time of day `secs` seconds after the start of 1970.
pub fn epoch_to_ymdhms(secs: u64) -> (r: DateTime)
    ensures
        is_valid(r),
        seconds_to(r) == secs,
{
    let second = (secs % 60) as u32;
    let minutes = secs / 60;
    let minute = (minutes % 60) as u32;
    let hours = minutes / 60;
    let hour = (hours % 24) as u32;
    let all_days = (hours / 24) as i64;
    let mut days: i64 = all_days;
    let mut year: i64 = 1970;
    loop
        invariant
            0 <= days <= all_days,
            all_days <= u64::MAX / 86400,
            all_days == days_to_year(year as int) + days,
            1970 <= year <= 1970 + (all_days - days),
        ensures
            0 <= days < year_days(year as int),
            all_days == days_to_year(year as int) + days,
            1970 <= year,
        decreases days,
    {
        let dy: i64 = if leap(year) { 366 } else { 365 };
        if days < dy {
            break;
        }
        days -= dy;
        year += 1;
    }
    let mut month: u32 = 1;
    let ghost in_year = days as int;
    while month < 12 && days >= days_in(year, month)
        invariant
            1970 <= year,
            1 <= month <= 12,
            0 <= days,
            in_year == days_to_month(year as int, month as int) + days,
        decreases 12 - month,
    {
        days -= days_in(year, month);
        month += 1;
    }
    proof {
        lemma_months(year as int, month as int);
        lemma_months(year as int, month + 1);
    }
    DateTime { year, month, day: (days + 1) as u32, hour, minute, second }
}

/// A date and time of day as ISO 8601 writes it.
pub open spec fn iso(t: DateTime) -> Seq<char> {
    decimal::padded(decimal::digits(t.year as nat), 4) + "-"@ + decimal::padded(
        decimal::digits(t.month as nat),
        2,
    ) + "-"@ + decimal::padded(decimal::digits(t.day as nat), 2) + "T"@ + decimal::padded(
        decimal::digits(t.hour as nat),
        2,
    ) + ":"@ + decimal::padded(decimal::digits(t.minute as nat), 2) + ":"@ + decimal::padded(
        decimal::digits(t.second as nat),
        2,
    ) + "Z"@
}

/// The moment `secs` seconds after the start of 1970 as ISO 8601 writes it.
pub fn iso_text(secs: u64) -> (r: String)
    ensures
        exists|t: DateTime| #[trigger] is_valid(t) && seconds_to(t) == secs && r@ == iso(t),
{
    let t = epoch_to_ymdhms(secs);
    let mut out = decimal::padded_text(t.year as u64, 4);
    out.append("-");
    out.append(decimal::padded_text(t.month as u64, 2).as_str());
    out.append("-");
    out.append(decimal::padded_text(t.day as u64, 2).as_str());
    out.append("T");
    out.append(decimal::padded_text(t.hour as u64, 2).as_str());
    out.append(":");
    out.append(decimal::padded_text(t.minute as u64, 2).as_str());
    out.append(":");
    out.append(decimal::padded_text(t.second as u64, 2).as_str());
    out.append("Z");
    out
}

} // verus!
