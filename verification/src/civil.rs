use vstd::prelude::*;

use crate::date::in_calendar;
use crate::date::MAX_DAY;
use crate::date::MIN_DAY;

verus! {

/// The earliest year chrono represents.
pub const MIN_YEAR: i32 = -262143;

/// The latest year chrono represents.
pub const MAX_YEAR: i32 = 262142;

/// Whether year `y` of the proleptic Gregorian calendar has a February 29.
pub open spec fn is_leap(y: int) -> bool {
    y % 4 == 0 && (y % 100 != 0 || y % 400 == 0)
}

/// Day number of January 1 of year `y` (January 1 of year 1 is day 1).
pub open spec fn year_first(y: int) -> int {
    365 * (y - 1) + (y - 1) / 4 - (y - 1) / 100 + (y - 1) / 400 + 1
}

/// The number of days of month `m` (1 to 12) of year `y`.
pub open spec fn month_len(y: int, m: int) -> int {
    if m == 2 {
        if is_leap(y) {
            29
        } else {
            28
        }
    } else if m == 4 || m == 6 || m == 9 || m == 11 {
        30
    } else {
        31
    }
}

/// The number of days of year `y` before the first of month `m` (1 to 12).
pub open spec fn days_before_month(y: int, m: int) -> int {
    let before: int = if m <= 1 {
        0
    } else if m == 2 {
        31
    } else if m == 3 {
        59
    } else if m == 4 {
        90
    } else if m == 5 {
        120
    } else if m == 6 {
        151
    } else if m == 7 {
        181
    } else if m == 8 {
        212
    } else if m == 9 {
        243
    } else if m == 10 {
        273
    } else if m == 11 {
        304
    } else {
        334
    };
    if m > 2 && is_leap(y) {
        before + 1
    } else {
        before
    }
}

/// Months are counted from January of year 0: month `i` is month
/// `i % 12 + 1` of year `i / 12`. This is the day number of its first day.
pub open spec fn month_first(i: int) -> int {
    year_first(i / 12) + days_before_month(i / 12, i % 12 + 1)
}

/// The number of days of month `i`.
pub open spec fn month_days(i: int) -> int {
    month_len(i / 12, i % 12 + 1)
}

/// Day `d` lies in month `i`.
pub open spec fn in_month(d: int, i: int) -> bool {
    month_first(i) <= d < month_first(i) + month_days(i)
}

/// The month that day `d` lies in (there is exactly one: `lemma_month_of`).
pub open spec fn month_of(d: int) -> int {
    choose|i: int| in_month(d, i)
}

/// The first day of the month of day `d`.
pub open spec fn month_start_of(d: int) -> int {
    month_first(month_of(d))
}

/// Day `d` is the first day of its month.
pub open spec fn is_month_start(d: int) -> bool {
    month_start_of(d) == d
}

/// The date `n` months after day `d` (before it for negative `n`), as chrono
/// moves a date by months: the same day of the target month, or its last day
/// when the target month is shorter; `None` when the target year is out of
/// range.
pub open spec fn months_shifted(d: int, n: int) -> Option<int> {
    let i = month_of(d);
    let j = i + n;
    let offset = d - month_first(i);
    if j / 12 < MIN_YEAR || j / 12 > MAX_YEAR {
        None
    } else {
        Some(
            month_first(j) + if offset < month_days(j) {
                offset
            } else {
                month_days(j) - 1
            },
        )
    }
}

proof fn lemma_div_step(y: int, k: int)
    requires
        k > 0,
    ensures
        y / k - (y - 1) / k == if y % k == 0 {
            1int
        } else {
            0int
        },
{
    assert(y == k * (y / k) + y % k) by (nonlinear_arith)
        requires
            k > 0,
    ;
    assert(y - 1 == k * ((y - 1) / k) + (y - 1) % k) by (nonlinear_arith)
        requires
            k > 0,
    ;
    assert(0 <= y % k < k && 0 <= (y - 1) % k < k) by (nonlinear_arith)
        requires
            k > 0,
    ;
    let q = y / k;
    let p = (y - 1) / k;
    assert(k * q - k * p == 1 + (y - 1) % k - y % k);
    if y % k == 0 {
        assert((y - 1) % k == k - 1) by (nonlinear_arith)
            requires
                k > 0,
                y % k == 0,
                y == k * q,
                y - 1 == k * p + (y - 1) % k,
                0 <= (y - 1) % k < k,
        ;
        assert(q - p == 1) by (nonlinear_arith)
            requires
                k > 0,
                k * q - k * p == k,
        ;
    } else {
        assert((y - 1) % k == y % k - 1) by (nonlinear_arith)
            requires
                k > 0,
                y == k * q + y % k,
                y - 1 == k * p + (y - 1) % k,
                0 < y % k < k,
                0 <= (y - 1) % k < k,
        ;
        assert(q - p == 0) by (nonlinear_arith)
            requires
                k > 0,
                k * q - k * p == 0,
        ;
    }
}

/// A year has 366 days when it is a leap year and 365 otherwise.
pub proof fn lemma_year_length(y: int)
    ensures
        year_first(y + 1) == year_first(y) + if is_leap(y) {
            366int
        } else {
            365int
        },
{
    lemma_div_step(y, 4);
    lemma_div_step(y, 100);
    lemma_div_step(y, 400);
    assert(y % 100 == 0 ==> y % 4 == 0) by {
        assert(y == 100 * (y / 100) + y % 100) by (nonlinear_arith);
        assert(y % 100 == 0 ==> y == 4 * (25 * (y / 100))) by (nonlinear_arith);
        if y % 100 == 0 {
            assert((4 * (25 * (y / 100))) % 4 == 0) by (nonlinear_arith);
        }
    }
    assert(y % 400 == 0 ==> y % 100 == 0) by {
        assert(y == 400 * (y / 400) + y % 400) by (nonlinear_arith);
        if y % 400 == 0 {
            assert(y == 100 * (4 * (y / 400))) by (nonlinear_arith)
                requires
                    y == 400 * (y / 400) + y % 400,
                    y % 400 == 0,
            ;
            assert((100 * (4 * (y / 400))) % 100 == 0) by (nonlinear_arith);
        }
    }
}

proof fn lemma_month_index(i: int)
    ensures
        0 <= i % 12 < 12,
        i % 12 < 11 ==> (i + 1) / 12 == i / 12 && (i + 1) % 12 == i % 12 + 1,
        i % 12 == 11 ==> (i + 1) / 12 == i / 12 + 1 && (i + 1) % 12 == 0,
{
}

/// Each month begins where the one before it ends.
pub proof fn lemma_next_month(i: int)
    ensures
        month_first(i + 1) == month_first(i) + month_days(i),
        28 <= month_days(i) <= 31,
{
    lemma_month_index(i);
    if i % 12 == 11 {
        lemma_year_length(i / 12);
    }
}

/// Later months start after earlier ones end.
pub proof fn lemma_months_ordered(i: int, j: int)
    requires
        i < j,
    ensures
        month_first(i) + month_days(i) <= month_first(j),
    decreases j - i,
{
    lemma_next_month(i);
    if i + 1 < j {
        lemma_months_ordered(i + 1, j);
        lemma_next_month(i + 1);
    }
}

proof fn lemma_month_above(d: int, i: int)
    requires
        month_first(i) <= d,
    ensures
        exists|j: int| in_month(d, j),
    decreases d - month_first(i),
{
    lemma_next_month(i);
    if !in_month(d, i) {
        lemma_month_above(d, i + 1);
    }
}

proof fn lemma_month_below(d: int, i: int)
    requires
        d < month_first(i),
    ensures
        exists|j: int| in_month(d, j),
    decreases month_first(i) - d,
{
    lemma_next_month(i - 1);
    if month_first(i - 1) <= d {
        assert(in_month(d, i - 1));
    } else {
        lemma_month_below(d, i - 1);
    }
}

/// Every day lies in exactly one month, and `month_of` names it.
pub proof fn lemma_month_of(d: int)
    ensures
        in_month(d, month_of(d)),
        forall|j: int| #[trigger] in_month(d, j) ==> j == month_of(d),
{
    if month_first(0) <= d {
        lemma_month_above(d, 0);
    } else {
        lemma_month_below(d, 0);
    }
    let i = month_of(d);
    assert forall|j: int| #[trigger] in_month(d, j) implies j == i by {
        if j < i {
            lemma_months_ordered(j, i);
        } else if i < j {
            lemma_months_ordered(i, j);
        }
    }
}

/// The first day of a month lies in that month.
pub proof fn lemma_month_of_first(i: int)
    ensures
        month_of(month_first(i)) == i,
{
    lemma_next_month(i);
    assert(in_month(month_first(i), i));
    lemma_month_of(month_first(i));
}

/// The first day of the month of any day is the first day of its own month.
pub proof fn lemma_month_start_is_first(d: int)
    ensures
        is_month_start(month_start_of(d)),
        month_start_of(d) <= d,
{
    lemma_month_of(d);
    lemma_month_of_first(month_of(d));
}

proof fn lemma_calendar_ends()
    ensures
        month_first(12 * MIN_YEAR) == MIN_DAY,
        month_first(12 * (MAX_YEAR + 1)) == MAX_DAY + 1,
{
    assert((12 * MIN_YEAR) / 12 == MIN_YEAR && (12 * MIN_YEAR) % 12 == 0);
    assert((12 * (MAX_YEAR + 1)) / 12 == MAX_YEAR + 1 && (12 * (MAX_YEAR + 1)) % 12 == 0);
    assert(year_first(MIN_YEAR as int) == MIN_DAY);
    assert(year_first(MAX_YEAR + 1) == MAX_DAY + 1);
}

/// The months of the representable years are exactly those whose days are
/// representable.
pub proof fn lemma_years_in_calendar(i: int)
    ensures
        MIN_YEAR <= i / 12 <= MAX_YEAR <==> in_calendar(month_first(i)) && in_calendar(
            month_first(i) + month_days(i) - 1,
        ),
{
    lemma_calendar_ends();
    lemma_next_month(i);
    let lo = 12 * MIN_YEAR;
    let hi = 12 * (MAX_YEAR + 1);
    if i < lo {
        lemma_months_ordered(i, lo);
    } else if lo < i {
        lemma_months_ordered(lo, i);
    }
    if i < hi {
        lemma_months_ordered(i, hi);
    } else if hi < i {
        lemma_months_ordered(hi, i);
    }
}

/// A representable day lies in a month of a representable year.
pub proof fn lemma_year_of_calendar_day(d: int)
    requires
        in_calendar(d),
    ensures
        MIN_YEAR <= month_of(d) / 12 <= MAX_YEAR,
        in_calendar(month_start_of(d)),
{
    lemma_month_of(d);
    let i = month_of(d);
    lemma_calendar_ends();
    let lo = 12 * MIN_YEAR;
    let hi = 12 * (MAX_YEAR + 1);
    if i < lo {
        lemma_months_ordered(i, lo);
    }
    if hi <= i {
        if hi < i {
            lemma_months_ordered(hi, i);
        }
    }
    lemma_years_in_calendar(i);
}

/// A date moved by months lies in the target month and is representable.
pub proof fn lemma_shifted(d: int, n: int)
    ensures
        months_shifted(d, n) matches Some(v) ==> in_calendar(v) && month_of(v) == month_of(d) + n,
{
    lemma_month_of(d);
    let j = month_of(d) + n;
    if MIN_YEAR <= j / 12 <= MAX_YEAR {
        lemma_years_in_calendar(j);
        lemma_next_month(j);
        let v = months_shifted(d, n)->0;
        assert(in_month(v, j));
        lemma_month_of(v);
    }
}

} // verus!
