use vstd::prelude::*;

use crate::date::Date;
use crate::day_count::{days_in_month_num, is_leap_year};
use crate::error::InvalidDayOfMonth;
use crate::month::month_number;

verus! {

/// Extension for `Result<Date, InvalidDayOfMonth>` to round invalid dates.
pub trait DateResultExt {
    /// Whether a held date is valid, so that rounding returns a valid date.
    spec fn date_valid(&self) -> bool;

    /// Whether rounding forwards stays inside the representable years.
    spec fn roundable(&self) -> bool;

    /// Get the date, or the next valid date.
    ///
    /// This function gives the first day of the next month for an invalid
    /// date.  It ignores any excess days in the invalid date.
    fn or_next_valid(&self) -> (r: Date)
        requires
            self.date_valid(),
            self.roundable(),
        ensures
            r.valid(),
    ;

    /// Get the date, or the last valid date before it.
    ///
    /// This function gives the last day of the current month for an
    /// invalid date.  It ignores any excess days in the invalid date.
    fn or_prev_valid(&self) -> (r: Date)
        requires
            self.date_valid(),
        ensures
            r.valid(),
    ;
}

impl DateResultExt for Result<Date, InvalidDayOfMonth> {
    open spec fn date_valid(&self) -> bool {
        self is Ok ==> self->Ok_0.valid()
    }

    open spec fn roundable(&self) -> bool {
        self is Err ==> !(self->Err_0.month is December && self->Err_0.year.number == i16::MAX)
    }

    fn or_next_valid(&self) -> (r: Date)
        ensures
            self is Ok ==> r == self->Ok_0,
            self is Err ==> {
                let e = self->Err_0;
                r.day == 1 && (if e.month is December {
                    r.year.number == e.year.number + 1 && r.month is January
                } else {
                    r.year == e.year && month_number(r.month) == month_number(e.month) + 1
                })
            },
    {
        match self {
            Ok(date) => *date,
            Err(e) => e.next_valid(),
        }
    }

    fn or_prev_valid(&self) -> (r: Date)
        ensures
            self is Ok ==> r == self->Ok_0,
            self is Err ==> {
                let e = self->Err_0;
                r.year == e.year && r.month == e.month && r.day == days_in_month_num(
                    month_number(e.month),
                    is_leap_year(e.year.number as int),
                )
            },
    {
        match self {
            Ok(date) => *date,
            Err(e) => e.prev_valid(),
        }
    }
}

} // verus!
