//! Calendar dates as day numbers: 1 January 2000 is day 1.

use vstd::prelude::*;

verus! {

/// Whether a year has 366 days.
pub open spec fn is_leap(year: int) -> bool {
    (year % 4 == 0 && year % 100 != 0) || year % 400 == 0
}

/// The days of a year.
pub open spec fn days_of_year(year: int) -> nat {
    if is_leap(year) {
        366
    } else {
        365
    }
}

/// The days of a month.
pub open spec fn days_of_month(year: int, month: int) -> nat {
    if month == 2 {
        if is_leap(year) {
            29
        } else {
            28
        }
    } else if month == 4 || month == 6 || month == 9 || month == 11 {
        30
    } else {
        31
    }
}

/// Whether there is such a day.
pub open spec fn is_date(year: int, month: int, day: int) -> bool {
    1 <= month <= 12 && 1 <= day <= days_of_month(year, month)
}

/// The days from the beginning of 2000 to that of a later year; 0 for an earlier one.
pub open spec fn days_before_year(year: int) -> nat
    decreases year - 2000,
{
    if year <= 2000 {
        0
    } else {
        days_before_year(year - 1) + days_of_year(year - 1)
    }
}

/// The days of a year before a month.
pub open spec fn days_before_month(year: int, month: int) -> nat
    decreases month,
{
    if month <= 1 {
        0
    } else {
        days_before_month(year, month - 1) + days_of_month(year, month - 1)
    }
}

/// The number of a day. Before 2000 it is the day of its year.
pub open spec fn day_number(year: int, month: int, day: int) -> int {
    days_before_year(year) + days_before_month(year, month) + day
}

/// Whether a year has 366 days.
fn leap(year: i32) -> (hit: bool)
    ensures
        hit == is_leap(year as int),
{
    // A multiple of 400 takes the year to one that is not negative.
    let y: u64 = (year as i64 + 2_147_484_000) as u64;
    (y % 4 == 0 && y % 100 != 0) || y % 400 == 0
}

/// The days of a month.
fn month_length(leap: bool, month: u32) -> (days: u32)
    requires
        1 <= month <= 12,
    ensures
        forall|year: int|
            is_leap(year) == leap ==> days == #[trigger] days_of_month(year, month as int),
{
    if month == 2 {
        if leap {
            29
        } else {
            28
        }
    } else if month == 4 || month == 6 || month == 9 || month == 11 {
        30
    } else {
        31
    }
}

/// The number of a day, if there is such a day.
pub fn date_to_day_number(year: i32, month: u32, day: u32) -> (number: Option<u64>)
    ensures
        match number {
            Some(n) => is_date(year as int, month as int, day as int) && n == day_number(
                year as int,
                month as int,
                day as int,
            ),
            None => !is_date(year as int, month as int, day as int),
        },
{
    if month < 1 || month > 12 {
        return None;
    }
    let is_leap_year = leap(year);
    if day == 0 || day > month_length(is_leap_year, month) {
        return None;
    }
    let mut total: u64 = 0;
    let mut y: i32 = 2000;
    while y < year
        invariant
            2000 <= y,
            y <= year || y == 2000,
            total == days_before_year(y as int),
            total <= 366 * (y - 2000),
        decreases year - y,
    {
        total = total + if leap(y) {
            366
        } else {
            365
        };
        y = y + 1;
    }
    assert(total == days_before_year(year as int));
    let mut m: u32 = 1;
    while m < month
        invariant
            1 <= m <= month <= 12,
            is_leap_year == is_leap(year as int),
            total == days_before_year(year as int) + days_before_month(year as int, m as int),
            total <= 366 * 2_147_483_647 + 31 * m,
        decreases month - m,
    {
        total = total + month_length(is_leap_year, m) as u64;
        m = m + 1;
    }
    Some(total + day as u64)
}

// ── Laws ──

/// The date of the next day.
pub open spec fn next_date(year: int, month: int, day: int) -> (int, int, int) {
    if day < days_of_month(year, month) {
        (year, month, day + 1)
    } else if month < 12 {
        (year, month + 1, 1)
    } else {
        (year + 1, 1, 1)
    }
}

/// The months of a year make up the year.
proof fn lemma_months_of_year(year: int)
    ensures
        days_before_month(year, 13) == days_of_year(year),
{
    reveal_with_fuel(days_before_month, 14);
}

/// From 2000 on, the next day has the next number.
pub proof fn the_next_day_has_the_next_number(year: int, month: int, day: int)
    requires
        year >= 2000,
        is_date(year, month, day),
    ensures
        ({
            let (y, m, d) = next_date(year, month, day);
            is_date(y, m, d) && day_number(y, m, d) == day_number(year, month, day) + 1
        }),
{
    if day == days_of_month(year, month) && month == 12 {
        lemma_months_of_year(year);
        assert(days_before_month(year, 13) == days_before_month(year, 12) + 31);
        assert(days_before_month(year + 1, 1) == 0);
        assert(days_before_year(year + 1) == days_before_year(year) + days_of_year(year));
    } else if day == days_of_month(year, month) {
        assert(days_before_month(year, month + 1) == days_before_month(year, month)
            + days_of_month(year, month));
    }
}

/// Whether a date comes before another.
pub open spec fn comes_before(a: (int, int, int), b: (int, int, int)) -> bool {
    a.0 < b.0 || (a.0 == b.0 && (a.1 < b.1 || (a.1 == b.1 && a.2 < b.2)))
}

/// The days before a later month are more by at least the months between.
proof fn lemma_months_grow(year: int, m: int, n: int)
    requires
        1 <= m < n,
    ensures
        days_before_month(year, m) + days_of_month(year, m) <= days_before_month(year, n),
    decreases n - m,
{
    if m + 1 < n {
        lemma_months_grow(year, m, n - 1);
    }
}

/// The days before a later year are more by at least the years between.
proof fn lemma_years_grow(y: int, z: int)
    requires
        2000 <= y < z,
    ensures
        days_before_year(y) + days_of_year(y) <= days_before_year(z),
    decreases z - y,
{
    if y + 1 < z {
        lemma_years_grow(y, z - 1);
    }
}

/// From 2000 on, an earlier day has a smaller number.
pub proof fn an_earlier_day_has_a_smaller_number(a: (int, int, int), b: (int, int, int))
    requires
        a.0 >= 2000,
        is_date(a.0, a.1, a.2),
        is_date(b.0, b.1, b.2),
        comes_before(a, b),
    ensures
        day_number(a.0, a.1, a.2) < day_number(b.0, b.1, b.2),
{
    if a.0 < b.0 {
        lemma_years_grow(a.0, b.0);
        lemma_months_of_year(a.0);
        lemma_months_grow(a.0, a.1, 13);
    } else if a.1 < b.1 {
        lemma_months_grow(a.0, a.1, b.1);
    }
}

/// The years since 2000 are counted by the Gregorian calendar: 365 days each, and one more for
/// every fourth of them, but not for every hundredth, but again for every four hundredth.
pub proof fn years_are_counted_by_the_gregorian_calendar(year: int)
    requires
        year >= 2000,
    ensures
        day_number(year, 1, 1) == 365 * (year - 2000) + ((year - 1) / 4 - 499) - ((year - 1) / 100
            - 19) + ((year - 1) / 400 - 4) + 1,
    decreases year - 2000,
{
    if year > 2000 {
        years_are_counted_by_the_gregorian_calendar(year - 1);
    }
    assert(days_before_month(year, 1) == 0);
    assert(days_before_month(year - 1, 1) == 0);
}

/// Four hundred years on, a year is a leap year as before.
proof fn lemma_leap_years_repeat(year: int)
    ensures
        is_leap(year + 400) == is_leap(year),
{
    assert((year + 400) % 4 == year % 4);
    assert((year + 400) % 100 == year % 100);
    assert((year + 400) % 400 == year % 400);
}

/// Four hundred years have 146097 days.
proof fn lemma_years_repeat(year: int)
    requires
        year >= 2000,
    ensures
        days_before_year(year + 400) == days_before_year(year) + 146097,
{
    years_are_counted_by_the_gregorian_calendar(year);
    years_are_counted_by_the_gregorian_calendar(year + 400);
    assert((year + 400 - 1) / 4 == (year - 1) / 4 + 100);
    assert((year + 400 - 1) / 100 == (year - 1) / 100 + 4);
    assert((year + 400 - 1) / 400 == (year - 1) / 400 + 1);
    assert(days_before_month(year, 1) == 0);
    assert(days_before_month(year + 400, 1) == 0);
}

/// Four hundred years on, a day has the number that is greater by 146097.
pub proof fn the_calendar_repeats_after_four_hundred_years(year: int, month: int, day: int)
    requires
        year >= 2000,
    ensures
        day_number(year + 400, month, day) == day_number(year, month, day) + 146097,
        is_date(year + 400, month, day) == is_date(year, month, day),
{
    lemma_leap_years_repeat(year);
    lemma_years_repeat(year);
    lemma_same_months(year, year + 400, month);
}

/// Two years that are both leap years, or both none, have the same months.
proof fn lemma_same_months(a: int, b: int, month: int)
    requires
        is_leap(a) == is_leap(b),
    ensures
        days_before_month(a, month) == days_before_month(b, month),
    decreases month,
{
    if month > 1 {
        lemma_same_months(a, b, month - 1);
    }
}

/// Whether there is such a day, month by month: 31 days in seven months, 30 in four, and 28 in
/// February, or 29 where the year can be divided by 4, but not by 100, or by 400.
pub proof fn the_months_have_their_days(year: int, month: int, day: int)
    ensures
        is_date(year, month, day) ==> 1 <= month <= 12 && 1 <= day <= 31,
        1 <= month <= 12 && 1 <= day <= 28 ==> is_date(year, month, day),
        is_date(year, month, 31) <==> month == 1 || month == 3 || month == 5 || month == 7 || month
            == 8 || month == 10 || month == 12,
        is_date(year, month, 30) <==> 1 <= month <= 12 && month != 2,
        is_date(year, month, 29) <==> 1 <= month <= 12 && (month != 2 || (year % 4 == 0 && (year
            % 100 != 0 || year % 400 == 0))),
{
}

/// The date some days after another.
pub open spec fn date_after(date: (int, int, int), days: nat) -> (int, int, int)
    decreases days,
{
    if days == 0 {
        date
    } else {
        let (y, m, d) = date_after(date, (days - 1) as nat);
        next_date(y, m, d)
    }
}

/// A date some days after another has the number that is greater by those days, across months and
/// years.
pub proof fn days_between_dates_are_counted(date: (int, int, int), days: nat)
    requires
        date.0 >= 2000,
        is_date(date.0, date.1, date.2),
    ensures
        ({
            let (y, m, d) = date_after(date, days);
            y >= 2000 && is_date(y, m, d) && day_number(y, m, d) == day_number(
                date.0,
                date.1,
                date.2,
            ) + days
        }),
    decreases days,
{
    if days > 0 {
        days_between_dates_are_counted(date, (days - 1) as nat);
        let (y, m, d) = date_after(date, (days - 1) as nat);
        the_next_day_has_the_next_number(y, m, d);
    }
}

/// Days are counted from the first of January 2000, which is day 1. Within a month they go up one
/// by one.
pub proof fn days_of_a_month_go_up(year: int, month: int, day: int)
    ensures
        day_number(2000, 1, 1) == 1,
        day_number(year, month, day) == day_number(year, month, 1) + day - 1,
        year < 2000 ==> day_number(year, 1, day) == day,
        1 <= month < 12 ==> day_number(year, month + 1, 1) == day_number(year, month, 1)
            + days_of_month(year, month),
{
    assert(days_before_month(year, 1) == 0);
    assert(days_before_month(2000, 1) == 0);
}

} // verus!
