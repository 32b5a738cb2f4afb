//! Calendar dates and times of day as plain values.
//!
//! The store keys dated flights by `(flight_number, Date)` and the history
//! reader orders bookings by date, so all the engine needs of a date is
//! field-wise equality and a total order; both are defined here.

use vstd::prelude::*;

verus! {

/// A calendar date, year-month-day.
#[derive(Debug, Clone, Copy, PartialEq, Eq, Structural)]
pub struct Date {
    pub year: i32,
    pub month: u32,
    pub day: u32,
}

/// A time of day, hours-minutes-seconds.
#[derive(Debug, Clone, Copy, PartialEq, Eq, Structural)]
pub struct Time {
    pub hour: u32,
    pub minute: u32,
    pub second: u32,
}

/// Lexicographic order on dates: `a` is on or before `b`.
pub open spec fn date_le(a: Date, b: Date) -> bool {
    if a.year != b.year {
        a.year < b.year
    } else if a.month != b.month {
        a.month < b.month
    } else {
        a.day <= b.day
    }
}

impl Date {
    pub open spec fn spec_new(year: i32, month: u32, day: u32) -> Date {
        Date { year, month, day }
    }

    /// Builds a date from its parts.
    pub fn new(year: i32, month: u32, day: u32) -> (r: Date)
        ensures
            r == Date::spec_new(year, month, day),
    {
        Date { year, month, day }
    }

    /// Whether `self` is on or before `other` in calendar order.
    pub fn is_on_or_before(&self, other: &Date) -> (r: bool)
        ensures
            r == date_le(*self, *other),
    {
        if self.year != other.year {
            self.year < other.year
        } else if self.month != other.month {
            self.month < other.month
        } else {
            self.day <= other.day
        }
    }
}

} // verus!
