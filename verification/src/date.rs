use vstd::prelude::*;

verus! {

/// A year is a leap year in the proleptic Gregorian calendar.
pub open spec fn is_leap_year(y: int) -> bool {
    y % 4 == 0 && (y % 100 != 0 || y % 400 == 0)
}

/// How many days the given month of the given year has.
pub open spec fn days_in_month(y: int, m: int) -> int {
    if m == 2 {
        if is_leap_year(y) {
            29
        } else {
            28
        }
    } else if m == 4 || m == 6 || m == 9 || m == 11 {
        30
    } else {
        31
    }
}

/// The three components name a real calendar date.
pub open spec fn valid_ymd(y: int, m: int, d: int) -> bool {
    1 <= m <= 12 && 1 <= d <= days_in_month(y, m)
}

/// A calendar date, kept as its plain components. Values are built through
/// `Date::new`, which refuses combinations that do not name a date.
#[derive(Clone, Copy, Debug, PartialEq, Eq, Structural)]
pub struct Date {
    pub year: u32,
    pub month: u32,
    pub day: u32,
}

impl Date {
    /// The components name a real calendar date.
    pub open spec fn wf(self) -> bool {
        valid_ymd(self.year as int, self.month as int, self.day as int)
    }

    /// Combine year, month and day into a date: `Some` exactly when the
    /// combination is a valid calendar date, `None` otherwise (for example
    /// a thirtieth of February).
    pub fn new(year: u32, month: u32, day: u32) -> (r: Option<Date>)
        ensures
            match r {
                Some(date) => date == (Date { year, month, day }) && date.wf(),
                None => !valid_ymd(year as int, month as int, day as int),
            },
    {
        if month < 1 || month > 12 {
            return None;
        }
        let leap = year % 4 == 0 && (year % 100 != 0 || year % 400 == 0);
        let limit: u32 = if month == 2 {
            if leap {
                29
            } else {
                28
            }
        } else if month == 4 || month == 6 || month == 9 || month == 11 {
            30
        } else {
            31
        };
        if day < 1 || day > limit {
            return None;
        }
        Some(Date { year, month, day })
    }
}

} // verus!
