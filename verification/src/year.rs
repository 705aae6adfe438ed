use vstd::prelude::*;

use crate::date::Date;
use crate::day_count::{day_of_year_num, days_in_year, is_leap_year};
use crate::error::InvalidDayOfYear;
use crate::month::{month_number, month_of_number, Month};
use crate::year_month::YearMonth;

verus! {

/// A calendar year.
///
/// All dates in the library use the proleptic Gregorian calendar with a
/// year 0.
#[derive(Copy, Clone, Debug, PartialEq, Eq, Structural, PartialOrd, Ord, Hash)]
pub struct Year {
    pub number: i16,
}

impl Year {
    /// Create a new year from a number.
    pub fn new(year: i16) -> (r: Self)
        ensures
            r.number == year,
    {
        Self { number: year }
    }

    /// Get the year number.
    pub fn to_number(self) -> (r: i16)
        ensures
            r == self.number,
    {
        self.number
    }

    /// Check if the year has a leap day.
    ///
    /// In the proleptic Gregorian calendar with a year 0, the year 0 has a
    /// leap day.
    pub fn has_leap_day(self) -> (r: bool)
        ensures
            r == is_leap_year(self.number as int),
    {
        proof {
            crate::util::lemma_trunc_div_rem(self.number as int, 4);
            crate::util::lemma_trunc_div_rem(self.number as int, 100);
            crate::util::lemma_trunc_div_rem(self.number as int, 400);
        }
        self.number % 4 == 0 && (self.number % 100 != 0 || self.number % 400 == 0)
    }

    /// Get the total number of days in the year.
    ///
    /// For leap years, this is 366.  For other years, this is 365.
    pub fn total_days(self) -> (r: u16)
        ensures
            r == days_in_year(self.number as int),
    {
        if self.has_leap_day() {
            366
        } else {
            365
        }
    }

    /// Get the next year.
    pub fn next(self) -> (r: Self)
        requires
            self.number < i16::MAX,
        ensures
            r.number == self.number + 1,
    {
        Self { number: self.number + 1 }
    }

    /// Get the previous year.
    pub fn prev(self) -> (r: Self)
        requires
            self.number > i16::MIN,
        ensures
            r.number == self.number - 1,
    {
        Self { number: self.number - 1 }
    }

    /// Combine the year with a month to create a [`YearMonth`].
    pub fn with_month(self, month: Month) -> (r: YearMonth)
        ensures
            r == (YearMonth { year: self, month }),
    {
        YearMonth { year: self, month }
    }

    /// Combine the year with a day-of-year to create a [`Date`].
    ///
    /// Day-of-year numbers start at 1 for January 1.
    pub fn with_day_of_year(self, day_of_year: u16) -> (r: Result<Date, InvalidDayOfYear>)
        ensures
            (1 <= day_of_year <= days_in_year(self.number as int)) <==> r is Ok,
            r is Ok ==> r->Ok_0.valid() && r->Ok_0.year == self && day_of_year_num(
                month_number(r->Ok_0.month),
                r->Ok_0.day as int,
                is_leap_year(self.number as int),
            ) == day_of_year,
            r is Err ==> r->Err_0 == (InvalidDayOfYear { year: self, day_of_year }),
    {
        let leap = self.has_leap_day();
        match crate::raw::month_and_day_from_day_of_year(day_of_year, leap) {
            Ok((month, day_of_month)) => Ok(
                self.with_month(month).with_day_unchecked(day_of_month),
            ),
            Err(()) => Err(InvalidDayOfYear { year: self, day_of_year }),
        }
    }

    /// Get the first month of the year as [`YearMonth`].
    pub fn first_month(self) -> (r: YearMonth)
        ensures
            r == (YearMonth { year: self, month: Month::January }),
    {
        self.with_month(Month::January)
    }

    /// Get the last month of the year as [`YearMonth`].
    pub fn last_month(self) -> (r: YearMonth)
        ensures
            r == (YearMonth { year: self, month: Month::December }),
    {
        self.with_month(Month::December)
    }

    /// Get all months of the year as [`YearMonth`] array.
    pub fn months(self) -> (r: [YearMonth; 12])
        ensures
            forall|i: int|
                0 <= i < 12 ==> r[i] == (YearMonth { year: self, month: month_of_number(i + 1) }),
    {
        [
            self.with_month(Month::January),
            self.with_month(Month::February),
            self.with_month(Month::March),
            self.with_month(Month::April),
            self.with_month(Month::May),
            self.with_month(Month::June),
            self.with_month(Month::July),
            self.with_month(Month::August),
            self.with_month(Month::September),
            self.with_month(Month::October),
            self.with_month(Month::November),
            self.with_month(Month::December),
        ]
    }

    /// Get the first day of the year as [`Date`].
    pub fn first_day(self) -> (r: Date)
        ensures
            r == (Date { year: self, month: Month::January, day: 1 }),
            r.valid(),
    {
        Date { year: self, month: Month::January, day: 1 }
    }

    /// Get the last day of the year as [`Date`].
    pub fn last_day(self) -> (r: Date)
        ensures
            r == (Date { year: self, month: Month::December, day: 31 }),
            r.valid(),
    {
        Date { year: self, month: Month::December, day: 31 }
    }
}

} // verus!
