use vstd::prelude::*;

use crate::date::Date;
use crate::day_count::{days_in_month_num, is_leap_year};
use crate::month::{month_number, Month};
use crate::year::Year;
use crate::year_month::YearMonth;

verus! {

/// The string is not a valid date.
#[derive(Clone, Debug, PartialEq, Eq, Structural)]
pub enum DateParseError {
    InvalidDateSyntax(InvalidDateSyntax),
    InvalidDate(InvalidDate),
}

/// The string does not follow the proper date syntax.
#[derive(Copy, Clone, Debug, PartialEq, Eq, Structural)]
pub struct InvalidDateSyntax {
}

impl InvalidDateSyntax {
    pub fn new() -> (r: Self)
        ensures
            r == (InvalidDateSyntax {  }),
    {
        Self {  }
    }
}

/// The date is not valid.
#[derive(Clone, Debug, PartialEq, Eq, Structural)]
pub enum InvalidDate {
    InvalidMonthNumber(InvalidMonthNumber),
    InvalidDayOfMonth(InvalidDayOfMonth),
}

/// The month number is not valid.
#[derive(Clone, Debug, PartialEq, Eq, Structural)]
pub struct InvalidMonthNumber {
    pub number: u8,
}

/// The day is not valid for the year and month.
#[derive(Copy, Clone, Debug, PartialEq, Eq, Structural)]
pub struct InvalidDayOfMonth {
    pub year: Year,
    pub month: Month,
    pub day: u8,
}

/// The day-of-year is not valid for the year.
#[derive(Clone, Debug, PartialEq, Eq, Structural)]
pub struct InvalidDayOfYear {
    pub year: Year,
    pub day_of_year: u16,
}

impl InvalidDayOfMonth {
    /// Check whether a day is valid for a year and month.
    pub fn check(year: Year, month: Month, day: u8) -> (r: Result<(), Self>)
        ensures
            (1 <= day <= days_in_month_num(month_number(month), is_leap_year(year.number as int)))
                <==> r is Ok,
            r is Err ==> r->Err_0 == (InvalidDayOfMonth { year, month, day }),
    {
        if day < 1 || day > YearMonth::new_const(year, month).total_days() {
            Err(Self { year, month, day })
        } else {
            Ok(())
        }
    }

    /// Get the next valid date.
    ///
    /// This function returns the first day of the month after the invalid
    /// date.  It does not add the excess days in the new month.
    pub fn next_valid(self) -> (r: Date)
        requires
            !(self.month is December && self.year.number == i16::MAX),
        ensures
            r.valid(),
            r.day == 1,
            self.month is December ==> r.year.number == self.year.number + 1 && r.month
                is January,
            !(self.month is December) ==> r.year == self.year && month_number(r.month)
                == month_number(self.month) + 1,
    {
        self.year.with_month(self.month).next().first_day()
    }

    /// Get the last valid date before the invalid date.
    ///
    /// This function returns the last day of the month of the invalid date.
    pub fn prev_valid(self) -> (r: Date)
        ensures
            r.valid(),
            r.year == self.year,
            r.month == self.month,
            r.day == days_in_month_num(month_number(self.month), is_leap_year(
                self.year.number as int,
            )),
    {
        self.year.with_month(self.month).last_day()
    }
}

} // verus!
