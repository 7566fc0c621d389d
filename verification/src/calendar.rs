use chrono::Datelike;
use chrono::Months;
use chrono::NaiveDate;
use vstd::prelude::*;

use crate::civil::lemma_month_of_first;
use crate::civil::lemma_month_start_is_first;
use crate::civil::lemma_next_month;
use crate::civil::lemma_shifted;
use crate::civil::lemma_year_of_calendar_day;
use crate::civil::is_month_start;
use crate::civil::month_first;
use crate::civil::month_of;
use crate::civil::month_start_of;
use crate::civil::months_shifted;
use crate::date::in_calendar;
use crate::date::Date;

verus! {

/// The text of day `day` in the format `%Y-%m-%d`, as chrono writes it.
pub uninterp spec fn iso_date_text(day: int) -> Seq<char>;

/// The day number that chrono reads from `text` in the format `%Y-%m-%d`
/// (`None` when the text is not such a date).
pub uninterp spec fn parsed_iso_date(text: Seq<char>) -> Option<int>;

/// The day of the week of `date`, counted from Sunday as 0.
///
/// Calls chrono's `Weekday::num_days_from_sunday` on the `NaiveDate` with the
/// same day number. The contract states the weekday arithmetically: chrono
/// counts January 1 of year 1 (a Monday) as day 1, so day 0 is a Sunday and
/// the weekday repeats every seven days.
#[verifier::external_body]
pub(crate) fn weekday_from_sunday(date: Date) -> (r: u32)
    ensures
        r as int == date@ % 7,
{
    NaiveDate::from_num_days_from_ce_opt(date.days()).unwrap().weekday().num_days_from_sunday()
}

/// The first day of the month of `date`.
///
/// Calls chrono's `Datelike::with_day(1)`, which cannot fail since every month
/// has a first day: the result is the first day of the Gregorian month that
/// holds `date`.
#[verifier::external_body]
fn first_day_of_month(date: Date) -> (r: i32)
    ensures
        r as int == month_start_of(date@),
{
    NaiveDate::from_num_days_from_ce_opt(date.days()).unwrap().with_day(1).unwrap().num_days_from_ce()
}

/// Calls chrono's `NaiveDate::checked_add_months` with `Months::new(n)`:
/// the same day `n` months later, clamped to the end of a shorter month, or
/// `None` when the target year is out of range (also when `n` exceeds
/// `i32::MAX`, where the target year is far out of range as well).
#[verifier::external_body]
fn checked_add_months(date: Date, n: u32) -> (r: Option<i32>)
    ensures
        r matches Some(v) ==> months_shifted(date@, n as int) == Some(v as int),
        r is None ==> months_shifted(date@, n as int) is None,
{
    match NaiveDate::from_num_days_from_ce_opt(date.days()).unwrap().checked_add_months(Months::new(n)) {
        Some(d) => Some(d.num_days_from_ce()),
        None => None,
    }
}

/// Calls chrono's `NaiveDate::checked_sub_months` with `Months::new(n)`:
/// the same day `n` months earlier, clamped to the end of a shorter month, or
/// `None` when the target year is out of range (also when `n` exceeds
/// `i32::MAX`).
#[verifier::external_body]
fn checked_sub_months(date: Date, n: u32) -> (r: Option<i32>)
    ensures
        r matches Some(v) ==> months_shifted(date@, -(n as int)) == Some(v as int),
        r is None ==> months_shifted(date@, -(n as int)) is None,
{
    match NaiveDate::from_num_days_from_ce_opt(date.days()).unwrap().checked_sub_months(Months::new(n)) {
        Some(d) => Some(d.num_days_from_ce()),
        None => None,
    }
}

/// Writes `date` with chrono's `format("%Y-%m-%d")`. The contract names the
/// text.
#[verifier::external_body]
pub(crate) fn iso_text(date: Date) -> (r: String)
    ensures
        r@ == iso_date_text(date@),
{
    NaiveDate::from_num_days_from_ce_opt(date.days()).unwrap().format("%Y-%m-%d").to_string()
}

/// Reads a date with chrono's `NaiveDate::parse_from_str(text, "%Y-%m-%d")`.
/// The contract names the result; a date it returns is representable.
#[verifier::external_body]
fn parse_iso_days(text: &str) -> (r: Option<i32>)
    ensures
        r matches Some(v) ==> in_calendar(v as int) && parsed_iso_date(text@) == Some(v as int),
        r is None ==> parsed_iso_date(text@) is None,
{
    match NaiveDate::parse_from_str(text, "%Y-%m-%d") {
        Ok(d) => Some(d.num_days_from_ce()),
        Err(_) => None,
    }
}

/// The date that `text` holds in the format `%Y-%m-%d`, if any.
pub fn parse_iso(text: &str) -> (r: Option<Date>)
    ensures
        r is Some <==> parsed_iso_date(text@) is Some,
        r matches Some(d) ==> parsed_iso_date(text@) == Some(d@),
{
    match parse_iso_days(text) {
        Some(v) => Some(Date::from_valid(v)),
        None => None,
    }
}

/// The first day of the month of `date`.
pub fn month_start(date: Date) -> (r: Date)
    ensures
        r@ == month_start_of(date@),
        is_month_start(r@),
{
    let v = first_day_of_month(date);
    let _ = date.days();
    proof {
        lemma_year_of_calendar_day(date@);
        lemma_month_start_is_first(date@);
    }
    Date::from_valid(v)
}

/// The first day of the month `months` months after (before, when negative)
/// the month of `day`; when that month lies outside the calendar, the first
/// day of `day`'s own month; `day` itself when `months` is zero.
pub open spec fn add_months_spec(day: int, months: int) -> int {
    if months == 0 {
        day
    } else {
        month_start_of(
            match months_shifted(day, months) {
                Some(x) => x,
                None => day,
            },
        )
    }
}

/// Moves the calendar by `months` months: the result is the first day of the
/// target month, or of `date`'s own month when the target is out of range;
/// zero months leaves `date` as it is.
pub fn add_months(date: Date, months: i32) -> (r: Date)
    requires
        months > i32::MIN,
    ensures
        r@ == add_months_spec(date@, months as int),
{
    if months == 0 {
        return date;
    }
    if months > 0 {
        let shifted = match checked_add_months(date, months as u32) {
            Some(v) => {
                proof {
                    lemma_shifted(date@, months as int);
                }
                Date::from_valid(v)
            },
            None => date,
        };
        month_start(shifted)
    } else {
        let shifted = match checked_sub_months(date, (-months) as u32) {
            Some(v) => {
                proof {
                    lemma_shifted(date@, months as int);
                }
                Date::from_valid(v)
            },
            None => date,
        };
        month_start(shifted)
    }
}

/// Moving the calendar by a nonzero number of months always lands on the first
/// day of a month.
pub proof fn lemma_add_months_is_month_start(day: int, months: int)
    requires
        months != 0,
    ensures
        is_month_start(add_months_spec(day, months)),
{
    let x = match months_shifted(day, months) {
        Some(v) => v,
        None => day,
    };
    lemma_month_start_is_first(x);
}

/// Going to the next month and back gives the first day of the month one
/// started from, whenever the next month is in the calendar.
pub proof fn lemma_next_then_previous_month(day: int)
    requires
        in_calendar(day),
        months_shifted(day, 1) is Some,
    ensures
        add_months_spec(add_months_spec(day, 1), -1) == month_start_of(day),
{
    let i = month_of(day);
    lemma_year_of_calendar_day(day);
    lemma_shifted(day, 1);
    lemma_month_of_first(i + 1);
    lemma_month_of_first(i);
    assert(add_months_spec(day, 1) == month_first(i + 1));
}

/// Going to the previous month and back gives the first day of the month one
/// started from, whenever the previous month is in the calendar.
pub proof fn lemma_previous_then_next_month(day: int)
    requires
        in_calendar(day),
        months_shifted(day, -1) is Some,
    ensures
        add_months_spec(add_months_spec(day, -1), 1) == month_start_of(day),
{
    let i = month_of(day);
    lemma_year_of_calendar_day(day);
    lemma_shifted(day, -1);
    lemma_month_of_first(i - 1);
    lemma_month_of_first(i);
    lemma_next_month(i - 1);
    assert(add_months_spec(day, -1) == month_first(i - 1));
}

} // verus!
