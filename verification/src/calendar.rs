//! Month lengths and weekdays of the proleptic Gregorian calendar.

use vstd::prelude::*;
use crate::error::RosterError;

verus! {

/// First year that the calendar covers: the first year of `chrono::NaiveDate`.
pub const MIN_YEAR: i32 = -262143;

/// Last year that the calendar covers: the last year of `chrono::NaiveDate`.
pub const MAX_YEAR: i32 = 262142;

pub open spec fn is_leap_year(year: int) -> bool {
    year % 4 == 0 && (year % 100 != 0 || year % 400 == 0)
}

/// Number of days of the given month.
pub open spec fn month_length(year: int, month: int) -> int {
    if month == 2 {
        if is_leap_year(year) {
            29
        } else {
            28
        }
    } else if month == 4 || month == 6 || month == 9 || month == 11 {
        30
    } else {
        31
    }
}

/// The date exists and lies within the years that the calendar covers.
pub open spec fn is_calendar_date(year: int, month: int, day: int) -> bool {
    &&& MIN_YEAR <= year <= MAX_YEAR
    &&& 1 <= month <= 12
    &&& 1 <= day <= month_length(year, month)
}

/// Days between January 1 of year 1 and January 1 of `year` (negative before year 1).
pub open spec fn days_before_year(year: int) -> int {
    365 * (year - 1) + (year - 1) / 4 - (year - 1) / 100 + (year - 1) / 400
}

/// Days of `year` that lie before the first of `month`.
pub open spec fn days_before_month(year: int, month: int) -> int
    decreases month,
{
    if month <= 1 {
        0
    } else {
        days_before_month(year, month - 1) + month_length(year, month - 1)
    }
}

/// Running number of a date, with January 1 of year 1 as day 1.
pub open spec fn day_number(year: int, month: int, day: int) -> int {
    days_before_year(year) + days_before_month(year, month) + day
}

/// Day of the week of a date: 0 for Monday up to 6 for Sunday.
pub open spec fn weekday_number(year: int, month: int, day: int) -> int {
    (day_number(year, month, day) - 1) % 7
}

/// Day of the week of a date that exists, and nothing for any other.
pub open spec fn weekday_of_date(year: int, month: int, day: int) -> Option<usize> {
    if is_calendar_date(year, month, day) {
        Some(weekday_number(year, month, day) as usize)
    } else {
        None
    }
}

/// The month and the month after it both start on a date that the calendar covers.
pub open spec fn month_on_calendar(year: int, month: int) -> bool {
    &&& 1 <= month <= 12
    &&& MIN_YEAR <= year
    &&& if month == 12 {
        year + 1 <= MAX_YEAR
    } else {
        year <= MAX_YEAR
    }
}

/// The year and month that a rota may be planned for.
pub open spec fn plannable_month(year: int, month: int) -> bool {
    0 <= year && month_on_calendar(year, month)
}

/// Whole days from the second date to the first, where both dates exist.
pub open spec fn span_of_dates(
    year_a: int,
    month_a: int,
    day_a: int,
    year_b: int,
    month_b: int,
    day_b: int,
) -> Option<i64> {
    if is_calendar_date(year_a, month_a, day_a) && is_calendar_date(year_b, month_b, day_b) {
        Some((day_number(year_a, month_a, day_a) - day_number(year_b, month_b, day_b)) as i64)
    } else {
        None
    }
}

/// Whole days from the second date to the first, by `chrono`: both dates are made with
/// `NaiveDate::from_ymd_opt`, subtracted with `NaiveDate::signed_duration_since`, and the
/// difference is read with `TimeDelta::num_days`.
///
/// Trusted: a date is made exactly when it exists in the proleptic Gregorian calendar within
/// the years covered, and the difference is that of the two running day numbers.
#[verifier::external_body]
fn days_between(
    year_a: i32,
    month_a: u32,
    day_a: u32,
    year_b: i32,
    month_b: u32,
    day_b: u32,
) -> (gap: Option<i64>)
    ensures
        gap == span_of_dates(
            year_a as int,
            month_a as int,
            day_a as int,
            year_b as int,
            month_b as int,
            day_b as int,
        ),
{
    let a = chrono::NaiveDate::from_ymd_opt(year_a, month_a, day_a)?;
    let b = chrono::NaiveDate::from_ymd_opt(year_b, month_b, day_b)?;
    Some(a.signed_duration_since(b).num_days())
}

/// Day of the week of a date, by `chrono`: the start of the day in UTC is made with
/// `TimeZone::with_ymd_and_hms`, taken out with `MappedLocalTime::single`, and its
/// `Datelike::weekday` is read as a number.
///
/// Trusted: the day is made exactly when the date exists in the proleptic Gregorian calendar
/// within the years covered; January 1 of year 1 is a Monday, and Monday is numbered 0.
#[verifier::external_body]
fn utc_weekday(year: i32, month: u32, day: u32) -> (weekday: Option<usize>)
    ensures
        weekday == weekday_of_date(year as int, month as int, day as int),
{
    let at = chrono::TimeZone::with_ymd_and_hms(&chrono::Utc, year, month, day, 0, 0, 0).single()?;
    Some(chrono::Datelike::weekday(&at) as usize)
}

/// Going from `y` to `y + 1` raises the quotient by `d` by one where `d` divides `y + 1`, and
/// leaves it as it is elsewhere.
proof fn lemma_quotient_step(y: int, d: int)
    requires
        d > 0,
    ensures
        (y + 1) / d - y / d == if (y + 1) % d == 0 {
            1int
        } else {
            0int
        },
{
    vstd::arithmetic::div_mod::lemma_fundamental_div_mod(y, d);
    vstd::arithmetic::div_mod::lemma_fundamental_div_mod(y + 1, d);
    vstd::arithmetic::div_mod::lemma_mod_bound(y, d);
    vstd::arithmetic::div_mod::lemma_mod_bound(y + 1, d);
    let q0 = y / d;
    let q1 = (y + 1) / d;
    let r0 = y % d;
    let r1 = (y + 1) % d;
    assert(d * (q1 - q0) == 1 + r0 - r1) by (nonlinear_arith)
        requires
            y == d * q0 + r0,
            y + 1 == d * q1 + r1,
    ;
    if q1 - q0 >= 2 {
        assert(d * (q1 - q0) >= 2 * d) by (nonlinear_arith)
            requires
                q1 - q0 >= 2,
                d > 0,
        ;
    }
    if q1 - q0 <= -1 {
        assert(d * (q1 - q0) <= -d) by (nonlinear_arith)
            requires
                q1 - q0 <= -1,
                d > 0,
        ;
    }
    if q1 - q0 == 1 {
        assert(d * (q1 - q0) == d) by (nonlinear_arith)
            requires
                q1 - q0 == 1,
        ;
    }
    if q1 - q0 == 0 {
        assert(d * (q1 - q0) == 0) by (nonlinear_arith)
            requires
                q1 - q0 == 0,
        ;
    }
}

/// A year has 365 days, and one more if it is a leap year.
pub proof fn lemma_year_length(year: int)
    ensures
        days_before_year(year + 1) - days_before_year(year) == if is_leap_year(year) {
            366int
        } else {
            365int
        },
{
    lemma_quotient_step(year - 1, 4);
    lemma_quotient_step(year - 1, 100);
    lemma_quotient_step(year - 1, 400);
}

/// Before December lie 334 days of the year, and one more in a leap year.
pub proof fn lemma_days_before_december(year: int)
    ensures
        days_before_month(year, 12) == if is_leap_year(year) {
            335int
        } else {
            334int
        },
{
    let leap: int = if is_leap_year(year) { 1 } else { 0 };
    assert(days_before_month(year, 1) == 0);
    assert(days_before_month(year, 2) == 31);
    assert(days_before_month(year, 3) == 59 + leap);
    assert(days_before_month(year, 4) == 90 + leap);
    assert(days_before_month(year, 5) == 120 + leap);
    assert(days_before_month(year, 6) == 151 + leap);
    assert(days_before_month(year, 7) == 181 + leap);
    assert(days_before_month(year, 8) == 212 + leap);
    assert(days_before_month(year, 9) == 243 + leap);
    assert(days_before_month(year, 10) == 273 + leap);
    assert(days_before_month(year, 11) == 304 + leap);
    assert(days_before_month(year, 12) == 334 + leap);
}

/// From the first of a month to the first of the next lie as many days as the month has.
pub proof fn lemma_month_gap(year: int, month: int)
    requires
        1 <= month <= 12,
    ensures
        month < 12 ==> day_number(year, month + 1, 1) - day_number(year, month, 1) == month_length(
            year,
            month,
        ),
        month == 12 ==> day_number(year + 1, 1, 1) - day_number(year, 12, 1) == 31,
{
    if month == 12 {
        lemma_year_length(year);
        lemma_days_before_december(year);
        assert(days_before_month(year + 1, 1) == 0);
    } else {
        assert(days_before_month(year, month + 1) == days_before_month(year, month) + month_length(
            year,
            month,
        ));
    }
}

/// Number of days of a month: the first of the month taken from the first of the next.
pub fn get_days_from_month(year: i32, month: u32) -> (days: i64)
    requires
        month_on_calendar(year as int, month as int),
    ensures
        days == month_length(year as int, month as int),
{
    let next_year: i32 = if month == 12 {
        year + 1
    } else {
        year
    };
    let next_month: u32 = if month == 12 {
        1
    } else {
        month + 1
    };
    proof {
        lemma_month_gap(year as int, month as int);
    }
    days_between(next_year, next_month, 1, year, month, 1).unwrap()
}

/// Day of the week of every day of a month, 0 for Monday up to 6 for Sunday.
pub fn weekdays_of_month(year: i32, month: u32) -> (weekdays: Vec<usize>)
    requires
        month_on_calendar(year as int, month as int),
    ensures
        weekdays.len() == month_length(year as int, month as int),
        forall|i: int|
            0 <= i < weekdays.len() ==> #[trigger] weekdays[i] == weekday_number(
                year as int,
                month as int,
                i + 1,
            ),
{
    let days = get_days_from_month(year, month);
    let mut weekdays: Vec<usize> = Vec::new();
    let mut day: u32 = 1;
    while day as i64 <= days
        invariant
            month_on_calendar(year as int, month as int),
            days == month_length(year as int, month as int),
            1 <= day <= days + 1,
            weekdays.len() == day - 1,
            forall|i: int|
                0 <= i < weekdays.len() ==> #[trigger] weekdays[i] == weekday_number(
                    year as int,
                    month as int,
                    i + 1,
                ),
        decreases days + 1 - day,
    {
        let weekday = utc_weekday(year, month, day).unwrap();
        weekdays.push(weekday);
        day += 1;
    }
    weekdays
}

/// Number of days of the month a rota is planned for, once year and month are found valid.
pub fn days_in_month(year: i32, month: u32) -> (days: Result<usize, RosterError>)
    ensures
        plannable_month(year as int, month as int) ==> days == Ok::<usize, RosterError>(
            month_length(year as int, month as int) as usize,
        ),
        !plannable_month(year as int, month as int) ==> days == Err::<usize, RosterError>(
            RosterError::InvalidYearMonth,
        ),
        days matches Ok(n) ==> 28 <= n <= 31,
{
    if year < 0 || month < 1 || month > 12 || year > MAX_YEAR || (month == 12 && year == MAX_YEAR)
    {
        return Err(RosterError::InvalidYearMonth);
    }
    let days = get_days_from_month(year, month);
    Ok(days as usize)
}

} // verus!
