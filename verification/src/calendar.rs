//! Converting between a calendar date and the epoch counts other agencies use.
//!
//! Both directions use the same era-shifted arithmetic of the proleptic
//! Gregorian calendar: the year is taken to start in March, which puts the
//! leap day at the end of the year and out of the arithmetic.

use vstd::prelude::*;
use crate::ports::Date;

verus! {

/// The number of days in a 400-year era.
pub const DAYS_PER_ERA: i64 = 146_097;

/// Days from 0000-03-01 to 1970-01-01.
pub const EPOCH_SHIFT: i64 = 719_468;

/// The days since the Unix epoch at the start of `year`-`month`-`day`.
pub open spec fn days_from_civil_spec(year: int, month: int, day: int) -> int {
    let y = if month <= 2 { year - 1 } else { year };
    let era = y / 400;
    let year_of_era = y - era * 400;
    let shifted_month = if month > 2 { month - 3 } else { month + 9 };
    let day_of_year = (153 * shifted_month + 2) / 5 + day - 1;
    let day_of_era = year_of_era * 365 + year_of_era / 4 - year_of_era / 100 + day_of_year;
    era * 146_097 + day_of_era - 719_468
}

/// The calendar date (year, month, day) `days` after the Unix epoch.
pub open spec fn civil_from_days_spec(days: int) -> (int, int, int) {
    let z = days + 719_468;
    let era = z / 146_097;
    let day_of_era = z - era * 146_097;
    let year_of_era = (day_of_era - day_of_era / 1460 + day_of_era / 36_524 - day_of_era / 146_096) / 365;
    let year = year_of_era + era * 400;
    let day_of_year = day_of_era - (365 * year_of_era + year_of_era / 4 - year_of_era / 100);
    let shifted_month = (5 * day_of_year + 2) / 153;
    let day = day_of_year - (153 * shifted_month + 2) / 5 + 1;
    let month = if shifted_month < 10 { shifted_month + 3 } else { shifted_month - 9 };
    let year = if month <= 2 { year + 1 } else { year };
    (year, month, day)
}

/// Rounding a negative number down: `(-m - 1) / d` is one less than
/// `-(m / d)`.
proof fn lemma_floor_div_negative(m: int, d: int)
    requires
        m >= 0,
        d > 0,
    ensures
        (-m - 1) / d == -(m / d) - 1,
{
    let q = m / d;
    let r = m % d;
    vstd::arithmetic::div_mod::lemma_fundamental_div_mod(m, d);
    assert(0 <= r < d);
    assert(-m - 1 == (-q - 1) * d + (d - 1 - r)) by (nonlinear_arith)
        requires
            m == d * q + r,
    {}
    vstd::arithmetic::div_mod::lemma_fundamental_div_mod_converse(-m - 1, d, -q - 1, d - 1 - r);
}

/// `x / d` rounded towards negative infinity.
fn floor_div(x: i64, d: i64) -> (r: i64)
    requires
        d > 0,
        x > i64::MIN,
    ensures
        r == x / d,
{
    if x >= 0 {
        x / d
    } else {
        let m: i64 = -(x + 1);
        let q: i64 = m / d;
        proof {
            lemma_floor_div_negative(m as int, d as int);
        }
        -q - 1
    }
}

/// The days since the Unix epoch at the start of `date`.
pub fn days_from_civil(date: Date) -> (r: i64)
    ensures
        r == days_from_civil_spec(date.year as int, date.month as int, date.day as int),
{
    let year: i64 = if date.month <= 2 { date.year as i64 - 1 } else { date.year as i64 };
    let era = floor_div(year, 400);
    let year_of_era = year - era * 400;
    proof {
        assert(0 <= year_of_era < 400) by (nonlinear_arith)
            requires
                era == year / 400,
                year_of_era == year - era * 400,
        {}
    }
    let month = date.month as i64;
    let shifted_month: i64 = if month > 2 { month - 3 } else { month + 9 };
    let day_of_year = (153 * shifted_month + 2) / 5 + date.day as i64 - 1;
    let day_of_era = year_of_era * 365 + year_of_era / 4 - year_of_era / 100 + day_of_year;
    proof {
        assert(-2147483649 <= year <= 2147483647);
        assert(-5368710 <= era <= 5368710) by (nonlinear_arith)
            requires
                era == year / 400,
                -2147483649 <= year <= 2147483647,
        {}
    }
    era * 146_097 + day_of_era - 719_468
}

/// The seconds since the Unix epoch at midnight at the start of `date`: a
/// date carries no time of day, so none is invented.
pub fn unix_timestamp(date: Date) -> (r: i64)
    ensures
        r == days_from_civil_spec(date.year as int, date.month as int, date.day as int) * 86_400,
{
    let days = days_from_civil(date);
    proof {
        assert(-800_000_000_000 <= days <= 800_000_000_000) by (nonlinear_arith)
            requires
                days == days_from_civil_spec(date.year as int, date.month as int, date.day as int),
                -2147483648 <= date.year <= 2147483647,
                0 <= date.month <= 255,
                0 <= date.day <= 255,
        {
            let y = if date.month <= 2 { date.year - 1 } else { date.year as int };
            let era = y / 400;
            let year_of_era = y - era * 400;
            assert(0 <= year_of_era < 400);
            assert(-5368710 <= era <= 5368710);
        }
    }
    days * 86_400
}

/// The calendar date `days` after the Unix epoch. A year beyond what a date
/// holds is reported as year zero.
pub fn date_from_unix_days(days: i64) -> (r: Date)
    requires
        days <= i64::MAX - 719_468,
    ensures
        ({
            let (y, m, d) = civil_from_days_spec(days as int);
            &&& r.year == (if i32::MIN <= y <= i32::MAX { y } else { 0 })
            &&& r.month == (if 0 <= m <= 255 { m } else { 1 })
            &&& r.day == (if 0 <= d <= 255 { d } else { 1 })
        }),
{
    let z = days + 719_468;
    let era = floor_div(z, 146_097);
    let day_of_era = z - era * 146_097;
    proof {
        assert(0 <= day_of_era < 146_097) by (nonlinear_arith)
            requires
                era == z / 146_097,
                day_of_era == z - era * 146_097,
        {}
        assert(-63_200_000_000_000 <= era <= 63_200_000_000_000) by (nonlinear_arith)
            requires
                era == z / 146_097,
                i64::MIN <= z <= i64::MAX,
        {}
    }
    let year_of_era = (day_of_era - day_of_era / 1460 + day_of_era / 36_524 - day_of_era / 146_096) / 365;
    proof {
        assert(0 <= year_of_era <= 400) by (nonlinear_arith)
            requires
                0 <= day_of_era < 146_097,
                year_of_era == (day_of_era - day_of_era / 1460 + day_of_era / 36_524 - day_of_era / 146_096) / 365,
        {}
    }
    let year = year_of_era + era * 400;
    let day_of_year = day_of_era - (365 * year_of_era + year_of_era / 4 - year_of_era / 100);
    proof {
        assert(-150_000 <= day_of_year <= 150_000) by (nonlinear_arith)
            requires
                0 <= day_of_era < 146_097,
                0 <= year_of_era <= 400,
                day_of_year == day_of_era - (365 * year_of_era + year_of_era / 4 - year_of_era / 100),
        {}
    }
    let shifted_month = floor_div(5 * day_of_year + 2, 153);
    let day = day_of_year - floor_div(153 * shifted_month + 2, 5) + 1;
    let month = if shifted_month < 10 { shifted_month + 3 } else { shifted_month - 9 };
    let year = if month <= 2 { year + 1 } else { year };
    Date {
        year: if i32::MIN as i64 <= year && year <= i32::MAX as i64 { year as i32 } else { 0 },
        month: if 0 <= month && month <= 255 { month as u8 } else { 1 },
        day: if 0 <= day && day <= 255 { day as u8 } else { 1 },
    }
}

// ---------------------------------------------------------------------------
// The two directions are inverses
// ---------------------------------------------------------------------------

/// Whether `year` is a leap year of the proleptic Gregorian calendar.
pub open spec fn is_leap_year(year: int) -> bool {
    (year % 4 == 0 && year % 100 != 0) || year % 400 == 0
}

/// How many days `month` of `year` has.
pub open spec fn days_in_month(year: int, month: int) -> int {
    if month == 2 {
        if is_leap_year(year) { 29 } else { 28 }
    } else if month == 4 || month == 6 || month == 9 || month == 11 {
        30
    } else {
        31
    }
}

/// Whether `year`-`month`-`day` names a day of the calendar.
pub open spec fn is_calendar_date(year: int, month: int, day: int) -> bool {
    1 <= month <= 12 && 1 <= day <= days_in_month(year, month)
}

/// The day of its era on which year `yoe` of the era starts, the years
/// beginning in March.
spec fn era_year_start(yoe: int) -> int {
    365 * yoe + yoe / 4 - yoe / 100
}

/// How many days year `yoe` of an era has: it ends with the February of the
/// next calendar year.
spec fn era_year_length(yoe: int) -> int {
    if is_leap_year(yoe + 1) { 366 } else { 365 }
}

/// The year of its era that day `doe` of the era falls in.
spec fn year_of_era_day(doe: int) -> int {
    (doe - doe / 1460 + doe / 36_524 - doe / 146_096) / 365
}

/// The day of a March-based year on which month `mp` (0 for March) starts.
spec fn month_start(mp: int) -> int {
    (153 * mp + 2) / 5
}

/// The month of a March-based year that day `doy` falls in.
spec fn month_of_year_day(doy: int) -> int {
    (5 * doy + 2) / 153
}

/// How many days month `mp` of a March-based year has at most.
spec fn month_length(mp: int) -> int {
    if mp == 11 {
        29
    } else if mp == 1 || mp == 3 || mp == 6 || mp == 8 {
        30
    } else {
        31
    }
}

/// Every day of an era falls inside the year its formula names.
#[verifier::rlimit(100)]
proof fn lemma_day_of_era_is_placed(doe: int)
    requires
        0 <= doe < 146_097,
    ensures
        0 <= year_of_era_day(doe) < 400,
        era_year_start(year_of_era_day(doe)) <= doe,
        doe < era_year_start(year_of_era_day(doe)) + era_year_length(year_of_era_day(doe)),
{
}

/// A day inside a year of an era is found in that year.
#[verifier::rlimit(100)]
proof fn lemma_year_of_era_day(yoe: int, doy: int)
    requires
        0 <= yoe < 400,
        0 <= doy < era_year_length(yoe),
    ensures
        year_of_era_day(era_year_start(yoe) + doy) == yoe,
{
}

/// Every day of a March-based year falls inside the month its formula names.
proof fn lemma_day_of_year_is_placed(doy: int)
    requires
        0 <= doy < 366,
    ensures
        0 <= month_of_year_day(doy) <= 11,
        month_start(month_of_year_day(doy)) <= doy,
        doy < month_start(month_of_year_day(doy)) + month_length(month_of_year_day(doy)),
{
}

/// A day inside a month is found in that month.
proof fn lemma_month_of_year_day(mp: int, d: int)
    requires
        0 <= mp <= 11,
        0 <= d < month_length(mp),
    ensures
        month_of_year_day(month_start(mp) + d) == mp,
{
}

/// A year is a leap year exactly when the year the same number of years into
/// its era is: the rule repeats every 400 years.
proof fn lemma_leap_repeats(era: int, k: int)
    ensures
        is_leap_year(era * 400 + k) == is_leap_year(k),
{
    let year = era * 400 + k;
    assert(year % 4 == k % 4);
    assert(year % 100 == k % 100);
    assert(year % 400 == k % 400);
}

/// No year of an era runs past the era's end.
proof fn lemma_era_year_inside_era(yoe: int)
    requires
        0 <= yoe < 400,
    ensures
        0 <= era_year_start(yoe),
        era_year_start(yoe) + era_year_length(yoe) <= 146_097,
{
}

/// The days since the epoch of a date, in terms of its era, its year of the
/// era and its day of that year.
proof fn lemma_count_parts(year: int, month: int, day: int)
    ensures
        ({
            let y = if month <= 2 { year - 1 } else { year };
            let era = y / 400;
            let yoe = y - era * 400;
            let mp = if month > 2 { month - 3 } else { month + 9 };
            days_from_civil_spec(year, month, day) == era * 146_097 + era_year_start(yoe) + month_start(mp) + day - 1 - 719_468
        }),
{
}

/// The date of a count of days, in terms of the count's era and its day of
/// the era.
proof fn lemma_date_parts(era: int, doe: int)
    requires
        0 <= doe < 146_097,
    ensures
        ({
            let yoe = year_of_era_day(doe);
            let doy = doe - era_year_start(yoe);
            let mp = month_of_year_day(doy);
            let month = if mp < 10 { mp + 3 } else { mp - 9 };
            let year = if month <= 2 { yoe + era * 400 + 1 } else { yoe + era * 400 };
            civil_from_days_spec(era * 146_097 + doe - 719_468) == (year, month, doy - month_start(mp) + 1)
        }),
{
    assert((era * 146_097 + doe) / 146_097 == era);
}

/// Counting the days to a date and turning the count back into a date gives
/// the date again, for every date of the calendar.
pub proof fn lemma_date_survives_counting(year: int, month: int, day: int)
    requires
        is_calendar_date(year, month, day),
    ensures
        civil_from_days_spec(days_from_civil_spec(year, month, day)) == (year, month, day),
{
    let y = if month <= 2 { year - 1 } else { year };
    let era = y / 400;
    let yoe = y - era * 400;
    let mp = if month > 2 { month - 3 } else { month + 9 };
    let doy = month_start(mp) + day - 1;
    assert(0 <= yoe < 400);
    assert(y == era * 400 + yoe);
    lemma_leap_repeats(era, yoe + 1);
    assert(month <= 2 ==> year == era * 400 + (yoe + 1));
    assert(0 <= doy < era_year_length(yoe));
    lemma_era_year_inside_era(yoe);
    lemma_year_of_era_day(yoe, doy);
    lemma_month_of_year_day(mp, day - 1);
    let doe = era_year_start(yoe) + doy;
    lemma_count_parts(year, month, day);
    lemma_date_parts(era, doe);
}

/// Turning a count of days into a date and counting the days to that date
/// gives the count again, for every count; and the date is one of the
/// calendar.
pub proof fn lemma_count_survives_dating(days: int)
    ensures
        is_calendar_date(civil_from_days_spec(days).0, civil_from_days_spec(days).1, civil_from_days_spec(days).2),
        days_from_civil_spec(civil_from_days_spec(days).0, civil_from_days_spec(days).1, civil_from_days_spec(days).2) == days,
{
    let z = days + 719_468;
    let era = z / 146_097;
    let doe = z - era * 146_097;
    assert(0 <= doe < 146_097);
    lemma_day_of_era_is_placed(doe);
    let yoe = year_of_era_day(doe);
    let doy = doe - era_year_start(yoe);
    lemma_day_of_year_is_placed(doy);
    let mp = month_of_year_day(doy);
    let (year, month, day) = civil_from_days_spec(days);
    assert(month <= 2 ==> year == era * 400 + yoe + 1);
    assert(month > 2 ==> year == era * 400 + yoe);
    assert(is_leap_year(yoe + 1) == is_leap_year(year) || month > 2) by {
        if month <= 2 {
            assert(year % 4 == (yoe + 1) % 4);
            assert(year % 100 == (yoe + 1) % 100);
            assert(year % 400 == (yoe + 1) % 400);
        }
    }
    assert((era * 400 + yoe) / 400 == era);
}

} // verus!
