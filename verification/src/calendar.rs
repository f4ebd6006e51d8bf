//! The proleptic Gregorian calendar: valid dates, day numbers counted from
//! 1970-01-01, and the order of dates.

use vstd::prelude::*;

verus! {

pub open spec fn is_leap_year(y: int) -> bool {
    (y % 4 == 0 && y % 100 != 0) || y % 400 == 0
}

pub open spec fn days_in_month(y: int, m: int) -> int {
    if m == 2 {
        if is_leap_year(y) {
            29
        } else {
            28
        }
    } else if m == 4 || m == 6 || m == 9 || m == 11 {
        30
    } else {
        31
    }
}

/// `(y, m, d)` names a day of the calendar.
pub open spec fn is_valid_date(y: int, m: int, d: int) -> bool {
    1 <= m <= 12 && 1 <= d <= days_in_month(y, m)
}

/// The days of year `y` before the first of month `m`.
pub open spec fn days_before_month(y: int, m: int) -> int
    decreases m,
{
    if m <= 1 {
        0
    } else {
        days_before_month(y, m - 1) + days_in_month(y, m - 1)
    }
}

/// The leap years among 1..=x (counted negatively for x < 0).
pub open spec fn leap_years_through(x: int) -> int {
    x / 4 - x / 100 + x / 400
}

/// The number of the day `(y, m, d)`, with 1970-01-01 as day 0.
pub open spec fn day_number(y: int, m: int, d: int) -> int {
    365 * (y - 1970) + (leap_years_through(y - 1) - leap_years_through(1969))
        + days_before_month(y, m) + d - 1
}

/// `(y, m, d)` comes before `(y2, m2, d2)`.
pub open spec fn date_before(y: int, m: int, d: int, y2: int, m2: int, d2: int) -> bool {
    y < y2 || (y == y2 && (m < m2 || (m == m2 && d < d2)))
}

proof fn lemma_days_before_month_grows(y: int, m: int, m2: int)
    requires
        m <= m2,
    ensures
        days_before_month(y, m) <= days_before_month(y, m2),
    decreases m2 - m,
{
    if m < m2 {
        lemma_days_before_month_grows(y, m, m2 - 1);
    }
}

proof fn lemma_year_length(y: int)
    ensures
        days_before_month(y, 12) + 31 == 365 + leap_years_through(y) - leap_years_through(y - 1),
{
    reveal_with_fuel(days_before_month, 12);
    assert(leap_years_through(y) - leap_years_through(y - 1) == if is_leap_year(y) {
        1int
    } else {
        0int
    });
}

proof fn lemma_new_year_follows(y: int, m: int, d: int)
    requires
        is_valid_date(y, m, d),
    ensures
        day_number(y, m, d) < day_number(y + 1, 1, 1),
{
    lemma_year_length(y);
    lemma_days_before_month_grows(y, m + 1, 13);
    assert(days_before_month(y, 13) == days_before_month(y, 12) + 31);
    assert(days_before_month(y, m + 1) == days_before_month(y, m) + days_in_month(y, m));
}

proof fn lemma_new_years_grow(y: int, y2: int)
    requires
        y <= y2,
    ensures
        day_number(y, 1, 1) <= day_number(y2, 1, 1),
    decreases y2 - y,
{
    if y < y2 {
        lemma_new_years_grow(y, y2 - 1);
        lemma_new_year_follows(y2 - 1, 1, 1);
    }
}

/// Day numbers follow the order of dates: a date before another has a
/// smaller day number, so no two dates share a day number.
pub proof fn lemma_day_number_order(y: int, m: int, d: int, y2: int, m2: int, d2: int)
    requires
        is_valid_date(y, m, d),
        is_valid_date(y2, m2, d2),
        date_before(y, m, d, y2, m2, d2),
    ensures
        day_number(y, m, d) < day_number(y2, m2, d2),
{
    if y < y2 {
        lemma_new_year_follows(y, m, d);
        lemma_new_years_grow(y + 1, y2);
        lemma_days_before_month_grows(y2, 1, m2);
    } else if m < m2 {
        lemma_days_before_month_grows(y, m + 1, m2);
        assert(days_before_month(y, m + 1) == days_before_month(y, m) + days_in_month(y, m));
    }
}

} // verus!
