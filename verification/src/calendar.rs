//! The proleptic Gregorian calendar, counted in days from 1970-01-01.
use vstd::prelude::*;

verus! {

/// Gregorian leap years: divisible by 4, except centuries not divisible by 400.
pub open spec fn is_leap_year(y: int) -> bool {
    y % 4 == 0 && (y % 100 != 0 || y % 400 == 0)
}

/// The number of days of year `y`.
pub open spec fn days_in_year(y: int) -> int {
    if is_leap_year(y) {
        366
    } else {
        365
    }
}

/// The number of days of month `m` (1 = January) of year `y`.
pub open spec fn days_in_month(y: int, m: int) -> int {
    if m == 2 {
        if is_leap_year(y) {
            29
        } else {
            28
        }
    } else if m == 4 || m == 6 || m == 9 || m == 11 {
        30
    } else {
        31
    }
}

/// The number of days of year `y` that come before the first day of month `m`.
pub open spec fn days_before_month(y: int, m: int) -> int
    decreases m,
{
    if m <= 1 {
        0
    } else {
        days_before_month(y, m - 1) + days_in_month(y, m - 1)
    }
}

/// The number of days from 1970-01-01 to the first day of year `y`
/// (negative before 1970).
pub open spec fn days_before_year(y: int) -> int
    decreases (if y >= 1970 {
        y - 1970
    } else {
        1970 - y
    }),
{
    if y == 1970 {
        0
    } else if y > 1970 {
        days_before_year(y - 1) + days_in_year(y - 1)
    } else {
        days_before_year(y + 1) - days_in_year(y)
    }
}

/// The day number of the date `y-m-d`, counting 1970-01-01 as day 0. A day
/// past the end of its month runs on into the next month.
pub open spec fn civil_day_number(y: int, m: int, d: int) -> int {
    days_before_year(y) + days_before_month(y, m) + d - 1
}

/// The month and day ranges that a date is read with.
pub open spec fn civil_date_accepted(m: int, d: int) -> bool {
    1 <= m <= 12 && 1 <= d <= 31
}

/// The number of leap years before year `y`, counted from year 0.
spec fn leap_count(y: int) -> int {
    (y - 1) / 4 - (y - 1) / 100 + (y - 1) / 400
}

proof fn lemma_div_step(y: int)
    ensures
        y / 4 - (y - 1) / 4 == (if y % 4 == 0 {
            1int
        } else {
            0int
        }),
        y / 100 - (y - 1) / 100 == (if y % 100 == 0 {
            1int
        } else {
            0int
        }),
        y / 400 - (y - 1) / 400 == (if y % 400 == 0 {
            1int
        } else {
            0int
        }),
{
}

proof fn lemma_leap_count_step(y: int)
    ensures
        leap_count(y + 1) - leap_count(y) == (if is_leap_year(y) {
            1int
        } else {
            0int
        }),
{
    lemma_div_step(y);
    assert(y % 400 == 0 ==> y % 100 == 0 && y % 4 == 0);
    assert(y % 100 == 0 ==> y % 4 == 0);
}

proof fn lemma_days_before_year_closed(y: int)
    ensures
        days_before_year(y) == 365 * (y - 1970) + leap_count(y) - 477,
    decreases (if y >= 1970 {
        y - 1970
    } else {
        1970 - y
    }),
{
    if y > 1970 {
        lemma_days_before_year_closed(y - 1);
        lemma_leap_count_step(y - 1);
    } else if y < 1970 {
        lemma_days_before_year_closed(y + 1);
        lemma_leap_count_step(y);
    } else {
        assert(leap_count(1970) == 477);
    }
}

proof fn lemma_days_before_month_values(y: int, m: int)
    requires
        1 <= m <= 12,
    ensures
        m >= 3 ==> days_before_month(y, m) == 59 + (if is_leap_year(y) {
            1int
        } else {
            0int
        }) + (153 * (m - 3) + 2) / 5,
        m == 1 ==> days_before_month(y, m) == 0,
        m == 2 ==> days_before_month(y, m) == 31,
{
    reveal_with_fuel(days_before_month, 13);
}

/// The era decomposition used by the day count: with `y = 400 * era + yoe`
/// and `0 <= yoe < 400`, the days before March of year `y + 1` split into
/// whole 400-year eras and the years of the current era.
proof fn lemma_era_split(y: int, era: int, yoe: int)
    requires
        y == 400 * era + yoe,
        0 <= yoe < 400,
    ensures
        365 * y + y / 4 - y / 100 + y / 400 == era * 146097 + yoe * 365 + yoe / 4 - yoe / 100,
{
    assert(y / 4 == 100 * era + yoe / 4);
    assert(y / 100 == 4 * era + yoe / 100);
    assert(y / 400 == era);
}

/// The day numbers of dates with years of at most four digits.
pub proof fn lemma_civil_day_number_bounds(y: int, m: int, d: int)
    requires
        0 <= y <= 9999,
        civil_date_accepted(m, d),
    ensures
        -800000 <= civil_day_number(y, m, d) <= 3000000,
{
    lemma_days_before_year_closed(y);
    lemma_days_before_month_values(y, m);
}

/// The day count of `days_from_civil` in closed form: March-based years,
/// whole 400-year eras, and the day of that year.
pub proof fn lemma_civil_closed_form(y: int, m: int, d: int, era: int, yoe: int)
    requires
        1 <= m <= 12,
        (if m <= 2 {
            y - 1
        } else {
            y
        }) == 400 * era + yoe,
        0 <= yoe < 400,
    ensures
        civil_day_number(y, m, d) == era * 146097 + yoe * 365 + yoe / 4 - yoe / 100 + (153 * (
        if m > 2 {
            m - 3
        } else {
            m + 9
        }) + 2) / 5 + d - 1 - 719468,
{
    let yy = if m <= 2 {
        y - 1
    } else {
        y
    };
    lemma_era_split(yy, era, yoe);
    lemma_days_before_month_values(y, m);
    lemma_days_before_year_closed(y);
    lemma_leap_count_step(y);
    lemma_leap_count_step(y - 1);
}

/// 1970-01-01 is day 0.
pub proof fn law_epoch_is_day_zero()
    ensures
        civil_day_number(1970, 1, 1) == 0,
{
}

/// The last day of a month other than December is followed by the first day
/// of the next month.
pub proof fn law_month_rolls_over(y: int, m: int)
    requires
        1 <= m < 12,
    ensures
        civil_day_number(y, m, days_in_month(y, m)) + 1 == civil_day_number(y, m + 1, 1),
{
}

/// December 31 is followed by January 1 of the next year, so each year has
/// `days_in_year` days.
pub proof fn law_year_rolls_over(y: int)
    ensures
        civil_day_number(y, 12, 31) + 1 == civil_day_number(y + 1, 1, 1),
        civil_day_number(y + 1, 1, 1) - civil_day_number(y, 1, 1) == days_in_year(y),
{
    reveal_with_fuel(days_before_month, 13);
    assert(days_before_year(y + 1) == days_before_year(y) + days_in_year(y));
}

} // verus!
