use vstd::prelude::*;

verus! {

/// Day number of the earliest representable date, January 1 of year -262143
/// of the proleptic Gregorian calendar, counting January 1 of year 1 as day 1.
pub const MIN_DAY: i32 = -95746129;

/// Day number of the latest representable date, December 31 of year 262142.
pub const MAX_DAY: i32 = 95745399;

/// Whether `d` is the number of a representable date.
pub open spec fn in_calendar(d: int) -> bool {
    MIN_DAY <= d <= MAX_DAY
}

/// A calendar date, held as its day number in the proleptic Gregorian
/// calendar (January 1 of year 1 is day 1, December 31 of year 0 is day 0).
#[derive(Clone, Copy, PartialEq, Eq, Structural, Debug)]
pub struct Date {
    days: i32,
}

impl View for Date {
    type V = int;

    closed spec fn view(&self) -> int {
        self.days as int
    }
}

impl Date {
    #[verifier::type_invariant]
    spec fn representable(self) -> bool {
        in_calendar(self.days as int)
    }

    /// The date with day number `days`, if it is representable.
    pub fn from_days(days: i32) -> (r: Option<Date>)
        ensures
            r is Some <==> in_calendar(days as int),
            r matches Some(d) ==> d@ == days,
    {
        if MIN_DAY <= days && days <= MAX_DAY {
            Some(Date { days })
        } else {
            None
        }
    }

    /// The date with day number `days`, which is representable.
    pub(crate) fn from_valid(days: i32) -> (r: Date)
        requires
            in_calendar(days as int),
        ensures
            r@ == days,
    {
        Date { days }
    }

    /// The day number of this date.
    pub fn days(&self) -> (r: i32)
        ensures
            r as int == self@,
            in_calendar(r as int),
    {
        proof {
            use_type_invariant(self);
        }
        self.days
    }

    /// The date `n` days later (earlier for negative `n`).
    pub fn plus_days(&self, n: i32) -> (r: Date)
        requires
            in_calendar(self@ + n),
        ensures
            r@ == self@ + n,
    {
        Date { days: self.days + n }
    }
}

} // verus!
