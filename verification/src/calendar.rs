//! The proleptic Gregorian calendar that chrono uses, counted in days from
//! 1970-01-01, with the laws that tie dates to day numbers.

use vstd::prelude::*;

verus! {

/// A leap year of the Gregorian calendar.
pub open spec fn is_leap_year(y: int) -> bool {
    y % 4 == 0 && (y % 100 != 0 || y % 400 == 0)
}

/// Days in the year `y`.
pub open spec fn year_length(y: int) -> int {
    if is_leap_year(y) { 366 } else { 365 }
}

/// Days in month `m` (1 to 12) of year `y`.
pub open spec fn month_length(y: int, m: int) -> int {
    if m == 2 {
        if is_leap_year(y) { 29 } else { 28 }
    } else if m == 4 || m == 6 || m == 9 || m == 11 {
        30
    } else {
        31
    }
}

/// Days of year `y` before the first of month `m` (1 to 13; 13 gives the whole year).
pub open spec fn days_before_month(y: int, m: int) -> int {
    let common: int = if m <= 1 { 0 }
        else if m == 2 { 31 }
        else if m == 3 { 59 }
        else if m == 4 { 90 }
        else if m == 5 { 120 }
        else if m == 6 { 151 }
        else if m == 7 { 181 }
        else if m == 8 { 212 }
        else if m == 9 { 243 }
        else if m == 10 { 273 }
        else if m == 11 { 304 }
        else if m == 12 { 334 }
        else { 365 };
    if m > 2 && is_leap_year(y) { common + 1 } else { common }
}

/// Days from 1970-01-01 to the first of January of year `y` (negative before 1970).
pub open spec fn days_before_year(y: int) -> int
    decreases (if y >= 1970 { y - 1970 } else { 1970 - y }),
{
    if y == 1970 {
        0
    } else if y > 1970 {
        days_before_year(y - 1) + year_length(y - 1)
    } else {
        days_before_year(y + 1) - year_length(y)
    }
}

/// A date that exists: month 1 to 12, day within the month.
pub open spec fn valid_date(y: int, m: int, d: int) -> bool {
    1 <= m <= 12 && 1 <= d <= month_length(y, m)
}

/// Days from 1970-01-01 to the date (negative before it).
pub open spec fn day_number(y: int, m: int, d: int) -> int {
    days_before_year(y) + days_before_month(y, m) + d - 1
}

/// Whether date `a` comes before date `b`.
pub open spec fn date_before(a: (int, int, int), b: (int, int, int)) -> bool {
    a.0 < b.0 || (a.0 == b.0 && (a.1 < b.1 || (a.1 == b.1 && a.2 < b.2)))
}

/// The calendar day after a date.
pub open spec fn next_date(a: (int, int, int)) -> (int, int, int) {
    if a.2 < month_length(a.0, a.1) {
        (a.0, a.1, a.2 + 1)
    } else if a.1 < 12 {
        (a.0, a.1 + 1, 1)
    } else {
        (a.0 + 1, 1, 1)
    }
}

/// The calendar day before a date.
pub open spec fn previous_date(a: (int, int, int)) -> (int, int, int) {
    if a.2 > 1 {
        (a.0, a.1, a.2 - 1)
    } else if a.1 > 1 {
        (a.0, a.1 - 1, month_length(a.0, a.1 - 1))
    } else {
        (a.0 - 1, 12, 31)
    }
}

/// The date whose day number is `k`.
pub open spec fn date_of_day(k: int) -> (int, int, int) {
    choose|a: (int, int, int)| valid_date(a.0, a.1, a.2) && #[trigger] day_number(a.0, a.1, a.2) == k
}

proof fn lemma_year_step(y: int)
    ensures
        days_before_year(y + 1) == days_before_year(y) + year_length(y),
{
    if y >= 1970 {
        assert(days_before_year(y + 1) == days_before_year(y) + year_length(y));
    } else {
        assert(days_before_year(y) == days_before_year(y + 1) - year_length(y));
    }
}

proof fn lemma_month_step(y: int, m: int)
    requires
        1 <= m <= 12,
    ensures
        days_before_month(y, m + 1) == days_before_month(y, m) + month_length(y, m),
        days_before_month(y, 13) == year_length(y),
        days_before_month(y, m) + month_length(y, m) <= year_length(y),
{
}

proof fn lemma_years_ordered(y1: int, y2: int)
    requires
        y1 < y2,
    ensures
        days_before_year(y1) + year_length(y1) <= days_before_year(y2),
    decreases y2 - y1,
{
    lemma_year_step(y1);
    if y1 + 1 < y2 {
        lemma_years_ordered(y1 + 1, y2);
        lemma_year_step(y1 + 1);
    }
}

proof fn lemma_months_ordered(y: int, m1: int, m2: int)
    requires
        1 <= m1 < m2 <= 12,
    ensures
        days_before_month(y, m1) + month_length(y, m1) <= days_before_month(y, m2),
{
    lemma_month_step(y, m1);
}

/// A date that comes before another valid date has a smaller day number.
pub proof fn lemma_date_order(a: (int, int, int), b: (int, int, int))
    requires
        valid_date(a.0, a.1, a.2),
        valid_date(b.0, b.1, b.2),
        date_before(a, b),
    ensures
        day_number(a.0, a.1, a.2) < day_number(b.0, b.1, b.2),
{
    lemma_month_step(a.0, a.1);
    if a.0 < b.0 {
        lemma_years_ordered(a.0, b.0);
    } else if a.1 < b.1 {
        lemma_months_ordered(a.0, a.1, b.1);
    }
}

/// Two valid dates with the same day number are the same date.
pub proof fn lemma_date_unique(a: (int, int, int), b: (int, int, int))
    requires
        valid_date(a.0, a.1, a.2),
        valid_date(b.0, b.1, b.2),
        day_number(a.0, a.1, a.2) == day_number(b.0, b.1, b.2),
    ensures
        a == b,
{
    if date_before(a, b) {
        lemma_date_order(a, b);
    } else if date_before(b, a) {
        lemma_date_order(b, a);
    }
}

/// The day after a valid date is valid and numbered one more.
pub proof fn lemma_next_date(a: (int, int, int))
    requires
        valid_date(a.0, a.1, a.2),
    ensures
        valid_date(next_date(a).0, next_date(a).1, next_date(a).2),
        day_number(next_date(a).0, next_date(a).1, next_date(a).2) == day_number(a.0, a.1, a.2) + 1,
{
    lemma_month_step(a.0, a.1);
    lemma_year_step(a.0);
}

/// The day before a valid date is valid and numbered one less.
pub proof fn lemma_previous_date(a: (int, int, int))
    requires
        valid_date(a.0, a.1, a.2),
    ensures
        valid_date(previous_date(a).0, previous_date(a).1, previous_date(a).2),
        day_number(previous_date(a).0, previous_date(a).1, previous_date(a).2) == day_number(a.0, a.1, a.2)
            - 1,
{
    if a.2 == 1 && a.1 > 1 {
        lemma_month_step(a.0, a.1 - 1);
    }
    if a.2 == 1 && a.1 == 1 {
        lemma_year_step(a.0 - 1);
        lemma_month_step(a.0 - 1, 12);
    }
}

/// Every day number is the number of some valid date.
pub proof fn lemma_date_exists(k: int)
    ensures
        exists|a: (int, int, int)| valid_date(a.0, a.1, a.2) && #[trigger] day_number(a.0, a.1, a.2) == k,
    decreases (if k >= 0 { k } else { -k }),
{
    if k == 0 {
        let a = (1970int, 1int, 1int);
        assert(day_number(a.0, a.1, a.2) == 0);
    } else if k > 0 {
        lemma_date_exists(k - 1);
        let a = choose|a: (int, int, int)| valid_date(a.0, a.1, a.2) && #[trigger] day_number(a.0, a.1, a.2) == k - 1;
        lemma_next_date(a);
        let b = next_date(a);
        assert(day_number(b.0, b.1, b.2) == k);
    } else {
        lemma_date_exists(k + 1);
        let a = choose|a: (int, int, int)| valid_date(a.0, a.1, a.2) && #[trigger] day_number(a.0, a.1, a.2) == k + 1;
        lemma_previous_date(a);
        let b = previous_date(a);
        assert(day_number(b.0, b.1, b.2) == k);
    }
}

/// `date_of_day(k)` is a valid date numbered `k`, and the only one.
pub proof fn lemma_date_of_day(k: int)
    ensures
        valid_date(date_of_day(k).0, date_of_day(k).1, date_of_day(k).2),
        day_number(date_of_day(k).0, date_of_day(k).1, date_of_day(k).2) == k,
        forall|a: (int, int, int)|
            valid_date(a.0, a.1, a.2) && #[trigger] day_number(a.0, a.1, a.2) == k ==> a == date_of_day(k),
{
    lemma_date_exists(k);
    assert forall|a: (int, int, int)|
        valid_date(a.0, a.1, a.2) && #[trigger] day_number(a.0, a.1, a.2) == k implies a == date_of_day(k) by {
        lemma_date_unique(a, date_of_day(k));
    }
}

/// Later day numbers never give earlier dates.
pub proof fn lemma_dates_grow(k1: int, k2: int)
    requires
        k1 <= k2,
    ensures
        !date_before(date_of_day(k2), date_of_day(k1)),
{
    lemma_date_of_day(k1);
    lemma_date_of_day(k2);
    if date_before(date_of_day(k2), date_of_day(k1)) {
        lemma_date_order(date_of_day(k2), date_of_day(k1));
    }
}

/// The date of day `k + 1` is the calendar day after the date of day `k`.
pub proof fn lemma_next_day(k: int)
    ensures
        next_date(date_of_day(k)) == date_of_day(k + 1),
{
    lemma_date_of_day(k);
    lemma_date_of_day(k + 1);
    lemma_next_date(date_of_day(k));
}


/// Whether `y` is a leap year.
pub fn leap_year(y: i32) -> (r: bool)
    ensures
        r == is_leap_year(y as int),
{
    let y = y as i64;
    let r4 = y % 4;
    let r100 = y % 100;
    let r400 = y % 400;
    r4 == 0 && (r100 != 0 || r400 == 0)
}

/// Days in month `m` of year `y`.
pub fn days_in_month(y: i32, m: u32) -> (r: u32)
    ensures
        r == month_length(y as int, m as int),
{
    if m == 2 {
        if leap_year(y) { 29 } else { 28 }
    } else if m == 4 || m == 6 || m == 9 || m == 11 {
        30
    } else {
        31
    }
}

/// The calendar day before a valid date.
pub fn day_before(y: i32, m: u32, d: u32) -> (r: (i32, u32, u32))
    requires
        valid_date(y as int, m as int, d as int),
        y > i32::MIN,
    ensures
        (r.0 as int, r.1 as int, r.2 as int) == previous_date((y as int, m as int, d as int)),
{
    if d > 1 {
        (y, m, d - 1)
    } else if m > 1 {
        (y, m - 1, days_in_month(y, m - 1))
    } else {
        (y - 1, 12, 31)
    }
}

proof fn lemma_years_before_1970(y: int)
    requires
        y <= 1970,
    ensures
        days_before_year(y) <= 365 * (y - 1970),
    decreases 1970 - y,
{
    if y < 1970 {
        lemma_years_before_1970(y + 1);
    }
}

/// A valid date numbered no lower than `-146_000_000` (some four hundred
/// thousand years before 1970) lies after the year -400000.
pub proof fn lemma_year_lower_bound(a: (int, int, int))
    requires
        valid_date(a.0, a.1, a.2),
        day_number(a.0, a.1, a.2) >= -146_000_000,
    ensures
        a.0 >= -400_000,
{
    if a.0 < -400_000 {
        lemma_years_before_1970(a.0);
        lemma_month_step(a.0, a.1);
    }
}

} // verus!
