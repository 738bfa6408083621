//! The civil calendar, for turning day-bucket timestamps from the
//! store into year/month/day listings and caller-supplied dates into
//! millisecond ranges. The supported span is the epoch through the
//! year 9999.

use vstd::prelude::*;

use crate::Error;
use crate::text::dec_digits;
use crate::text::u64_to_string;
use crate::web::AvailableLogDate;

verus! {

pub open spec fn is_leap(y: int) -> bool {
    (y % 4 == 0 && y % 100 != 0) || y % 400 == 0
}

pub open spec fn days_in_month(y: int, m: int) -> int {
    if m == 2 {
        if is_leap(y) {
            29
        } else {
            28
        }
    } else if m == 4 || m == 6 || m == 9 || m == 11 {
        30
    } else {
        31
    }
}

pub open spec fn year_days(y: int) -> int {
    if is_leap(y) {
        366
    } else {
        365
    }
}

/// Days between the epoch and the start of year `y`.
pub open spec fn days_before_year(y: int) -> int
    decreases y when y >= 1970
{
    if y <= 1970 {
        0
    } else {
        days_before_year(y - 1) + year_days(y - 1)
    }
}

/// Days between the start of the year and the start of month `m`.
pub open spec fn days_before_month(y: int, m: int) -> int
    decreases m when m >= 1
{
    if m <= 1 {
        0
    } else {
        days_before_month(y, m - 1) + days_in_month(y, m - 1)
    }
}

/// The dates the library supports.
pub open spec fn valid_date(y: int, m: int, d: int) -> bool {
    1970 <= y <= 9999 && 1 <= m <= 12 && 1 <= d <= days_in_month(y, m)
}

/// The day number of a date: days since the epoch.
pub open spec fn days_from_civil(y: int, m: int, d: int) -> int {
    days_before_year(y) + days_before_month(y, m) + d - 1
}

fn is_leap_exec(y: u64) -> (r: bool)
    ensures
        r == is_leap(y as int),
{
    (y % 4 == 0 && y % 100 != 0) || y % 400 == 0
}

fn year_days_exec(y: u64) -> (r: u64)
    ensures
        r == year_days(y as int),
{
    if is_leap_exec(y) {
        366
    } else {
        365
    }
}

fn days_in_month_exec(y: u64, m: u64) -> (r: u64)
    ensures
        r == days_in_month(y as int, m as int),
{
    if m == 2 {
        if is_leap_exec(y) {
            29
        } else {
            28
        }
    } else if m == 4 || m == 6 || m == 9 || m == 11 {
        30
    } else {
        31
    }
}

/// Later years start on later days.
proof fn lemma_days_before_year_mono(y1: int, y2: int)
    requires
        1970 <= y1 <= y2,
    ensures
        days_before_year(y1) <= days_before_year(y2),
    decreases y2 - y1,
{
    if y1 < y2 {
        lemma_days_before_year_mono(y1, y2 - 1);
    }
}

/// The twelve months cover the year exactly.
proof fn lemma_months_cover_year(y: int)
    ensures
        days_before_month(y, 13) == year_days(y),
{
    reveal_with_fuel(days_before_month, 13);
}

/// The day number of a supported date, `None` outside the support.
pub fn civil_to_days(y: u64, m: u64, d: u64) -> (r: Option<u64>)
    ensures
        r is Some <==> valid_date(y as int, m as int, d as int),
        r matches Some(n) ==> n == days_from_civil(y as int, m as int, d as int) && n < 3000000,
{
    if !(1970 <= y && y <= 9999 && 1 <= m && m <= 12) {
        return None;
    }
    if !(1 <= d && d <= days_in_month_exec(y, m)) {
        return None;
    }
    let mut days: u64 = 0;
    let mut yy: u64 = 1970;
    while yy < y
        invariant
            1970 <= yy <= y,
            y <= 9999,
            days == days_before_year(yy as int),
            days <= 366 * (yy - 1970),
        decreases y - yy,
    {
        days = days + year_days_exec(yy);
        yy = yy + 1;
        proof {
            assert(days_before_year(yy as int) == days_before_year(yy - 1) + year_days(yy - 1));
        }
    }
    let mut mm: u64 = 1;
    while mm < m
        invariant
            1 <= mm <= m,
            m <= 12,
            y <= 9999,
            days == days_before_year(y as int) + days_before_month(y as int, mm as int),
            days_before_year(y as int) <= 366 * (y - 1970),
            days <= 366 * (y - 1970) + 31 * (mm - 1),
        decreases m - mm,
    {
        days = days + days_in_month_exec(y, mm);
        mm = mm + 1;
        proof {
            assert(days_before_month(y as int, mm as int) == days_before_month(y as int, mm - 1)
                + days_in_month(y as int, mm - 1));
        }
    }
    Some(days + d - 1)
}

/// The date of a day number below the year 10000: the inverse of
/// [`days_from_civil`] on the supported span.
pub fn civil_from_days(days: u64) -> (r: (u64, u64, u64))
    requires
        days < days_before_year(10000),
    ensures
        valid_date(r.0 as int, r.1 as int, r.2 as int),
        days_from_civil(r.0 as int, r.1 as int, r.2 as int) == days,
{
    let mut y: u64 = 1970;
    let mut rem: u64 = days;
    while rem >= year_days_exec(y)
        invariant
            1970 <= y <= 9999,
            days_before_year(y as int) + rem == days,
            days < days_before_year(10000),
        decreases rem,
    {
        rem = rem - year_days_exec(y);
        y = y + 1;
        proof {
            assert(days_before_year(y as int) == days_before_year(y - 1) + year_days(y - 1));
            if y > 9999 {
                lemma_days_before_year_mono(10000, y as int);
                assert(days_before_year(y as int) <= days);
                assert(false);
            }
        }
    }
    let mut m: u64 = 1;
    while rem >= days_in_month_exec(y, m)
        invariant
            1 <= m <= 12,
            1970 <= y <= 9999,
            days_before_year(y as int) + days_before_month(y as int, m as int) + rem == days,
            days_before_month(y as int, m as int) + rem < year_days(y as int),
        decreases 12 - m,
    {
        rem = rem - days_in_month_exec(y, m);
        m = m + 1;
        proof {
            assert(days_before_month(y as int, m as int) == days_before_month(y as int, m - 1)
                + days_in_month(y as int, m - 1));
            if m > 12 {
                lemma_months_cover_year(y as int);
                assert(false);
            }
        }
    }
    (y, m, rem + 1)
}

/// One day in milliseconds.
pub const DAY_MS: u64 = 86400000;

/// The millisecond range of one calendar day, rejected as a malformed
/// parameter outside the supported dates: what a by-date read queries.
pub fn day_range_ms(y: u64, m: u64, d: u64) -> (r: Result<(u64, u64), Error>)
    ensures
        r is Ok <==> valid_date(y as int, m as int, d as int),
        r is Err ==> r == Err::<(u64, u64), Error>(Error::InvalidParam),
        r matches Ok(p) ==> p.0 == days_from_civil(y as int, m as int, d as int) * DAY_MS && p.1
            == (days_from_civil(y as int, m as int, d as int) + 1) * DAY_MS,
{
    match civil_to_days(y, m, d) {
        Some(n) => Ok((n * DAY_MS, (n + 1) * DAY_MS)),
        None => Err(Error::InvalidParam),
    }
}

/// The millisecond range of one calendar month, rejected as a
/// malformed parameter outside the supported dates (the last supported
/// month has no end).
pub fn month_range_ms(y: u64, m: u64) -> (r: Result<(u64, u64), Error>)
    ensures
        r is Ok <==> (valid_date(y as int, m as int, 1) && !(y == 9999 && m == 12)),
        r is Err ==> r == Err::<(u64, u64), Error>(Error::InvalidParam),
        r matches Ok(p) ==> p.0 == days_from_civil(y as int, m as int, 1) * DAY_MS && p.1 == (
        if m == 12 {
            days_from_civil(y + 1, 1, 1) * DAY_MS
        } else {
            days_from_civil(y as int, m + 1, 1) * DAY_MS
        }),
{
    if y == 9999 && m == 12 {
        return Err(Error::InvalidParam);
    }
    let start = match civil_to_days(y, m, 1) {
        Some(n) => n,
        None => {
            return Err(Error::InvalidParam);
        },
    };
    let end = if m == 12 {
        civil_to_days(y + 1, 1, 1)
    } else {
        civil_to_days(y, m + 1, 1)
    };
    match end {
        Some(n) => Ok((start * DAY_MS, n * DAY_MS)),
        None => Err(Error::InvalidParam),
    }
}

/// One listed date, rendered in decimal, with or without its day.
pub fn available_date(y: u64, m: u64, d: u64, with_day: bool) -> (r: AvailableLogDate)
    ensures
        r.year@ == dec_digits(y as nat),
        r.month@ == dec_digits(m as nat),
        with_day ==> (r.day matches Some(s) && s@ == dec_digits(d as nat)),
        !with_day ==> r.day is None,
{
    AvailableLogDate {
        year: u64_to_string(y),
        month: u64_to_string(m),
        day: if with_day {
            Some(u64_to_string(d))
        } else {
            None
        },
    }
}

} // verus!
