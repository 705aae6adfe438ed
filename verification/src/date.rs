use vstd::prelude::*;

use crate::day_count::{
    day_number, day_of_year_num, days_before_year, days_in_month_num, days_in_year, is_leap_year,
    month_start_num,
};
use crate::error::{InvalidDate, InvalidDayOfMonth, InvalidMonthNumber};
use crate::month::{month_number, month_of_number, Month};
use crate::year::Year;
use crate::year_month::YearMonth;

verus! {

/// The total number of days in 400 years.
pub(crate) const DAYS_IN_400_YEARS: i32 = 400 * 365 + 97;

/// The number of days since year 0 for 1970-01-01.
pub(crate) const UNIX_EPOCH_DAY: i32 = DAYS_IN_400_YEARS * 4 + 370 * 365 + 90;

/// A calendar date consisting of a year, month and day.
///
/// All dates in the library use the proleptic Gregorian calendar with a
/// year 0.
#[derive(Copy, Clone, Debug, PartialEq, Eq, Structural, PartialOrd, Ord, Hash)]
pub struct Date {
    pub year: Year,
    pub month: Month,
    pub day: u8,
}

impl Date {
    /// Whether the day of the month exists in the month.
    pub open spec fn valid(self) -> bool {
        1 <= self.day as int <= days_in_month_num(
            month_number(self.month),
            is_leap_year(self.year.number as int),
        )
    }

    /// The day number of the date: days since 1 January of year 0 (day 0).
    pub open spec fn spec_day_number(self) -> int {
        day_number(self.year.number as int, month_number(self.month), self.day as int)
    }

    /// Create a new date from a year, month number and day.
    ///
    /// Month and day numbers start at 1.
    pub fn new(year: i16, month: u8, day: u8) -> (r: Result<Self, InvalidDate>)
        ensures
            !(1 <= month <= 12) ==> r == Err::<Date, InvalidDate>(
                InvalidDate::InvalidMonthNumber(InvalidMonthNumber { number: month }),
            ),
            1 <= month <= 12 && !(1 <= day <= days_in_month_num(
                month as int,
                is_leap_year(year as int),
            )) ==> r == Err::<Date, InvalidDate>(
                InvalidDate::InvalidDayOfMonth(
                    InvalidDayOfMonth {
                        year: Year { number: year },
                        month: month_of_number(month as int),
                        day,
                    },
                ),
            ),
            1 <= month <= 12 && 1 <= day <= days_in_month_num(
                month as int,
                is_leap_year(year as int),
            ) ==> r == Ok::<Date, InvalidDate>(
                Date { year: Year { number: year }, month: month_of_number(month as int), day },
            ),
            r is Ok ==> r->Ok_0.valid(),
    {
        let month = match Month::new(month) {
            Ok(m) => m,
            Err(e) => {
                return Err(InvalidDate::InvalidMonthNumber(e));
            },
        };
        match YearMonth::new(year, month).with_day(day) {
            Ok(date) => Ok(date),
            Err(e) => Err(InvalidDate::InvalidDayOfMonth(e)),
        }
    }

    /// Create a new date from a year, month and day.
    ///
    /// Day numbers start at 1.
    pub fn new_const(year: Year, month: Month, day: u8) -> (r: Result<Self, InvalidDayOfMonth>)
        ensures
            (1 <= day <= days_in_month_num(
                month_number(month),
                is_leap_year(year.number as int),
            )) <==> r is Ok,
            r is Ok ==> r->Ok_0 == (Date { year, month, day }) && r->Ok_0.valid(),
            r is Err ==> r->Err_0 == (InvalidDayOfMonth { year, month, day }),
    {
        YearMonth::new_const(year, month).with_day(day)
    }

    /// Create a new date without checking the validity.
    ///
    /// Month and day numbers start at 1, and the day must exist in the
    /// month: callers guarantee validity.
    pub fn new_unchecked(year: Year, month: Month, day: u8) -> (r: Self)
        requires
            1 <= day <= days_in_month_num(month_number(month), is_leap_year(year.number as int)),
        ensures
            r == (Date { year, month, day }),
            r.valid(),
    {
        Self { year, month, day }
    }

    /// Get the year.
    pub fn year(self) -> (r: Year)
        ensures
            r == self.year,
    {
        self.year
    }

    /// Get the month.
    pub fn month(self) -> (r: Month)
        ensures
            r == self.month,
    {
        self.month
    }

    /// Get the day of the month.
    pub fn day(self) -> (r: u8)
        ensures
            r == self.day,
    {
        self.day
    }

    /// Get the year and month as [`YearMonth`].
    pub fn year_month(self) -> (r: YearMonth)
        ensures
            r == (YearMonth { year: self.year, month: self.month }),
    {
        YearMonth::new_const(self.year, self.month)
    }

    /// Get the day of the year.
    ///
    /// The returned number is 1-based.  For January 1, this function will
    /// return 1.
    pub fn day_of_year(self) -> (r: u16)
        ensures
            r == day_of_year_num(
                month_number(self.month),
                self.day as int,
                is_leap_year(self.year.number as int),
            ),
    {
        crate::raw::day_of_year(self.month, self.day, self.year.has_leap_day())
    }

    /// The number of days remaining in the year, including the current date.
    ///
    /// For January 1 this will return 365 in a non-leap year or 366 in a
    /// leap year.  For December 31, this will return 1.
    pub fn days_remaining_in_year(self) -> (r: u16)
        requires
            self.valid(),
        ensures
            r == days_in_year(self.year.number as int) - day_of_year_num(
                month_number(self.month),
                self.day as int,
                is_leap_year(self.year.number as int),
            ) + 1,
    {
        proof {
            crate::day_count::lemma_day_of_year_bounds(
                month_number(self.month),
                self.day as int,
                is_leap_year(self.year.number as int),
            );
        }
        self.year.total_days() - self.day_of_year() + 1
    }

    /// Get the total number of days since 1 January 0000.
    ///
    /// The returned value is zero-based.  For 1 January 0000, this function
    /// returns 0.
    pub fn days_since_year_zero(self) -> (r: i32)
        ensures
            r == self.spec_day_number(),
            -11968267 <= r <= 11968490,
    {
        let y: i32 = self.year.to_number() as i32;
        let years: i32 = crate::util::modulo_i32(y, 400);
        let whole_cycles: i32 = (y - years) / 400;
        proof {
            lemma_days_since_year_zero(y as int, years as int, whole_cycles as int);
        }

        // Plus one because year 0 is a leap year.
        // But minus one in leap years, because the leap day of the current
        // year is already taken care of by `day_of_year`.
        let leap_days: i32 = years / 4 - years / 100 + 1 - (if self.year.has_leap_day() {
            1
        } else {
            0
        });
        let from_years: i32 = whole_cycles * DAYS_IN_400_YEARS + years * 365 + leap_days;
        let doy = self.day_of_year();
        proof {
            assert(1 <= month_start_num(
                month_number(self.month),
                is_leap_year(self.year.number as int),
            ) <= 336);
        }
        from_years + doy as i32 - 1
    }

    /// Get the date corresponding to a number of days since the year zero.
    ///
    /// For this function, day 0 is 1 January of year 0.
    #[verifier::rlimit(100)]
    pub fn from_days_since_year_zero(days: i32) -> (r: Self)
        requires
            crate::day_count::min_day_number() <= days < crate::day_count::end_day_number(),
        ensures
            r.valid(),
            r.spec_day_number() == days,
    {
        // Get the day index in the current 400 year cycle, and the number
        // of passed 400 year cycles.
        let day_index: i32 = crate::util::modulo_i32(days, DAYS_IN_400_YEARS);
        let whole_cycles: i32 = (days - day_index) / DAYS_IN_400_YEARS;
        proof {
            lemma_whole_cycles(days as int, day_index as int, whole_cycles as int);
        }

        // How many leap days did not happen at year 100, 200 and 300?
        let pretend_leap_days: i32 = if day_index >= 300 * 365 + 73 + 31 + 28 {
            3
        } else if day_index >= 200 * 365 + 49 + 31 + 28 {
            2
        } else if day_index >= 100 * 365 + 25 + 31 + 28 {
            1
        } else {
            0
        };

        // How many four year intervals passed, and how many days since then?
        let four_year_cycles: i32 = (day_index + pretend_leap_days) / (4 * 365 + 1);
        let day_of_four_year_cycle: i32 = (day_index + pretend_leap_days) % (4 * 365 + 1);

        // How many years passed since the 4 year interval?
        let year_of_four_year_cycle: i32 = (day_of_four_year_cycle - 1) / 365;

        // Calculate the day of the year.  We added pretend leap days for
        // year 100, 200 and 300, so we can ignore the fact that those years
        // actually don't have one.
        let day_of_year: i32 = day_of_four_year_cycle - (year_of_four_year_cycle * 365);
        let day_of_year: i32 = day_of_year - (if day_of_four_year_cycle >= 366 {
            1
        } else {
            0
        });

        // Compensate for 1 based day-of-year numbers.
        let day_of_year: i32 = day_of_year + 1;
        proof {
            crate::day_count::lemma_cycle_decode(
                day_index as int,
                pretend_leap_days as int,
                four_year_cycles as int,
                day_of_four_year_cycle as int,
                year_of_four_year_cycle as int,
                day_of_year as int,
            );
        }

        // Put it all together.
        let year_num: i32 = 400 * whole_cycles + 4 * four_year_cycles + year_of_four_year_cycle;
        proof {
            lemma_assemble_year(
                days as int,
                whole_cycles as int,
                four_year_cycles as int,
                year_of_four_year_cycle as int,
                day_of_year as int,
            );
        }
        let year = Year::new(year_num as i16);

        // Lie about leap years for year 100, 200 and 300, because we added
        // pretend leap days for them.
        let leap_guess = year_of_four_year_cycle == 0;
        let (month, day_of_month) = match crate::raw::month_and_day_from_day_of_year(
            day_of_year as u16,
            leap_guess,
        ) {
            Ok(x) => x,
            Err(()) => vstd::pervasive::unreached(),
        };
        proof {
            let f = four_year_cycles as int;
            let j = year_of_four_year_cycle as int;
            let yc = 4 * f + j;
            let lie = j == 0 && (f == 25 || f == 50 || f == 75);
            crate::day_count::lemma_leap_mod_400(whole_cycles as int, yc);
            if lie {
                crate::day_count::lemma_leap_table_shift(
                    month_number(month),
                    day_of_month as int,
                    day_of_year as int,
                );
            }
        }
        year.with_month(month).with_day_unchecked(day_of_month)
    }

    /// Get a [`Date`] object for the next day.
    pub fn next(self) -> (r: Date)
        requires
            self.valid(),
            !(self.year.number == i16::MAX && self.month is December && self.day == 31),
        ensures
            r.valid(),
            r.spec_day_number() == self.spec_day_number() + 1,
    {
        proof {
            let y = self.year.number as int;
            let leap = is_leap_year(y);
            crate::day_count::lemma_month_table(leap);
            if self.month is December {
                crate::day_count::lemma_days_before_year_succ(y);
            }
        }
        if self.day == self.year_month().total_days() {
            self.year_month().next().first_day()
        } else {
            Self { year: self.year, month: self.month, day: self.day + 1 }
        }
    }

    /// Get a [`Date`] object for the previous day.
    pub fn prev(self) -> (r: Date)
        requires
            self.valid(),
            !(self.year.number == i16::MIN && self.month is January && self.day == 1),
        ensures
            r.valid(),
            r.spec_day_number() == self.spec_day_number() - 1,
    {
        proof {
            let y = self.year.number as int;
            crate::day_count::lemma_month_table(is_leap_year(y));
            if self.month is January {
                crate::day_count::lemma_days_before_year_succ(y - 1);
                crate::day_count::lemma_month_table(is_leap_year(y - 1));
            }
        }
        if self.day == 1 {
            self.year_month().prev().last_day()
        } else {
            Self { year: self.year, month: self.month, day: self.day - 1 }
        }
    }

    /// Compute a date by adding days.
    pub fn add_days(self, days: i32) -> (r: Self)
        requires
            crate::day_count::min_day_number() <= self.spec_day_number() + days
                < crate::day_count::end_day_number(),
        ensures
            r.valid(),
            r.spec_day_number() == self.spec_day_number() + days,
    {
        proof {
            assert(days_before_year(-0x8000) == -11968266int);
            assert(days_before_year(0x8000) == 11968266int);
        }
        Self::from_days_since_year_zero(self.days_since_year_zero() + days)
    }

    /// Compute a date by subtracting days.
    pub fn sub_days(self, days: i32) -> (r: Self)
        requires
            days > i32::MIN,
            crate::day_count::min_day_number() <= self.spec_day_number() - days
                < crate::day_count::end_day_number(),
        ensures
            r.valid(),
            r.spec_day_number() == self.spec_day_number() - days,
    {
        proof {
            assert(days_before_year(-0x8000) == -11968266int);
            assert(days_before_year(0x8000) == 11968266int);
        }
        Self::from_days_since_year_zero(self.days_since_year_zero() - days)
    }

    /// Compute a date by adding a number of months.
    ///
    /// The resulting date may not be valid: the day of the month may not
    /// exist in the resulting month.  Use [`InvalidDayOfMonth::next_valid()`]
    /// or [`InvalidDayOfMonth::prev_valid()`] to round such a result.
    pub fn add_months(self, months: i32) -> (r: Result<Self, InvalidDayOfMonth>)
        requires
            self.valid(),
            crate::year_month::min_year_month_index() <= crate::year_month::year_month_index(
                YearMonth { year: self.year, month: self.month },
            ) + months <= crate::year_month::max_year_month_index(),
        ensures
            ({
                let idx = crate::year_month::year_month_index(
                    YearMonth { year: self.year, month: self.month },
                ) + months;
                let ty = idx / 12;
                let tm = 1 + idx % 12;
                &&& (self.day <= days_in_month_num(tm, is_leap_year(ty))) <==> r is Ok
                &&& r is Ok ==> r->Ok_0 == (Date {
                    year: Year { number: ty as i16 },
                    month: month_of_number(tm),
                    day: self.day,
                }) && r->Ok_0.valid()
                &&& r is Err ==> r->Err_0 == (InvalidDayOfMonth {
                    year: Year { number: ty as i16 },
                    month: month_of_number(tm),
                    day: self.day,
                })
            }),
    {
        let ym = self.year_month().add_months(months);
        proof {
            crate::month::lemma_month_number_of_number(ym.month);
            crate::month::lemma_month_roundtrip(month_number(ym.month));
        }
        ym.with_day(self.day())
    }

    /// Compute a date by subtracting a number of months.
    ///
    /// The resulting date may not be valid: the day of the month may not
    /// exist in the resulting month.  Use [`InvalidDayOfMonth::next_valid()`]
    /// or [`InvalidDayOfMonth::prev_valid()`] to round such a result.
    pub fn sub_months(self, months: i32) -> (r: Result<Self, InvalidDayOfMonth>)
        requires
            self.valid(),
            months > i32::MIN,
            crate::year_month::min_year_month_index() <= crate::year_month::year_month_index(
                YearMonth { year: self.year, month: self.month },
            ) - months <= crate::year_month::max_year_month_index(),
        ensures
            ({
                let idx = crate::year_month::year_month_index(
                    YearMonth { year: self.year, month: self.month },
                ) - months;
                let ty = idx / 12;
                let tm = 1 + idx % 12;
                &&& (self.day <= days_in_month_num(tm, is_leap_year(ty))) <==> r is Ok
                &&& r is Ok ==> r->Ok_0 == (Date {
                    year: Year { number: ty as i16 },
                    month: month_of_number(tm),
                    day: self.day,
                }) && r->Ok_0.valid()
                &&& r is Err ==> r->Err_0 == (InvalidDayOfMonth {
                    year: Year { number: ty as i16 },
                    month: month_of_number(tm),
                    day: self.day,
                })
            }),
    {
        let ym = self.year_month().sub_months(months);
        proof {
            crate::month::lemma_month_number_of_number(ym.month);
            crate::month::lemma_month_roundtrip(month_number(ym.month));
        }
        ym.with_day(self.day())
    }

    /// Compute a date by adding a number of years.
    ///
    /// The resulting date may not be valid: 29 February only exists in leap
    /// years.  Use [`InvalidDayOfMonth::next_valid()`] or
    /// [`InvalidDayOfMonth::prev_valid()`] to round such a result.
    pub fn add_years(self, years: i16) -> (r: Result<Self, InvalidDayOfMonth>)
        requires
            self.valid(),
            i16::MIN <= self.year.number + years <= i16::MAX,
        ensures
            ({
                let ty = self.year.number + years;
                &&& (self.day <= days_in_month_num(
                    month_number(self.month),
                    is_leap_year(ty),
                )) <==> r is Ok
                &&& r is Ok ==> r->Ok_0 == (Date {
                    year: Year { number: ty as i16 },
                    month: self.month,
                    day: self.day,
                }) && r->Ok_0.valid()
                &&& r is Err ==> r->Err_0 == (InvalidDayOfMonth {
                    year: Year { number: ty as i16 },
                    month: self.month,
                    day: self.day,
                })
            }),
    {
        self.year_month().add_years(years).with_day(self.day())
    }

    /// Compute a date by subtracting a number of years.
    ///
    /// The resulting date may not be valid: 29 February only exists in leap
    /// years.  Use [`InvalidDayOfMonth::next_valid()`] or
    /// [`InvalidDayOfMonth::prev_valid()`] to round such a result.
    pub fn sub_years(self, years: i16) -> (r: Result<Self, InvalidDayOfMonth>)
        requires
            self.valid(),
            i16::MIN <= self.year.number - years <= i16::MAX,
        ensures
            ({
                let ty = self.year.number - years;
                &&& (self.day <= days_in_month_num(
                    month_number(self.month),
                    is_leap_year(ty),
                )) <==> r is Ok
                &&& r is Ok ==> r->Ok_0 == (Date {
                    year: Year { number: ty as i16 },
                    month: self.month,
                    day: self.day,
                }) && r->Ok_0.valid()
                &&& r is Err ==> r->Err_0 == (InvalidDayOfMonth {
                    year: Year { number: ty as i16 },
                    month: self.month,
                    day: self.day,
                })
            }),
    {
        self.year_month().sub_years(years).with_day(self.day())
    }

    /// Get the date for a unix timestamp.
    ///
    /// The timestamp is interpreted as number of seconds since 1 January
    /// 1970 00:00, not including any leap seconds.
    pub fn from_unix_timestamp(seconds: i64) -> (r: Self)
        requires
            crate::day_count::min_day_number() <= 719528 + (seconds as int) / 86400
                < crate::day_count::end_day_number(),
        ensures
            r.valid(),
            r.spec_day_number() == 719528 + (seconds as int) / 86400,
    {
        let days: i64 = seconds / (24 * 3600);
        proof {
            crate::util::lemma_trunc_div_rem(seconds as int, 86400);
        }
        let days: i64 = if seconds < 0 && seconds != days * 24 * 3600 {
            days - 1
        } else {
            days
        };
        proof {
            assert(days == (seconds as int) / 86400);
            assert(days_before_year(-0x8000) == -11968266int);
            assert(days_before_year(0x8000) == 11968266int);
            assert(UNIX_EPOCH_DAY == 719528int);
        }
        Self::from_days_since_year_zero(UNIX_EPOCH_DAY + days as i32)
    }

    /// Get the unix timestamp for a date.
    ///
    /// The timestamp is the number of seconds since 1 January 1970 00:00.
    ///
    /// The returned timestamp is valid for time 00:00 of the date.
    pub fn to_unix_timestamp(self) -> (r: i64)
        ensures
            r == 86400 * (self.spec_day_number() - 719528),
    {
        let days = self.days_since_year_zero() - UNIX_EPOCH_DAY;
        60 * 60 * 24 * (days as i64)
    }

    /// Get the current date of the UTC time zone.
    ///
    /// When the system clock reports a time before the unix epoch, this
    /// returns 1 January 1970; a time too far in the future for the year to
    /// be representable yields 31 December of year 32767.
    pub fn today_utc() -> (r: Self)
        ensures
            r.valid(),
    {
        let seconds: u64 = match unix_clock_seconds() {
            Some(s) => s,
            None => 0,
        };
        let days: u64 = seconds / (60 * 60 * 24);
        let day_number: i32 = if days > 11248737 {
            11968265
        } else {
            UNIX_EPOCH_DAY + days as i32
        };
        proof {
            assert(days_before_year(-0x8000) == -11968266int);
            assert(days_before_year(0x8000) == 11968266int);
        }
        Self::from_days_since_year_zero(day_number)
    }
}

/// Relies on `std::time::SystemTime::now` and
/// `SystemTime::duration_since`: the wall-clock time as whole seconds since
/// 1 January 1970 00:00 UTC, or `None` when the clock reports a time before
/// the epoch.  Nothing can be promised about what the clock reports.
#[verifier::external_body]
fn unix_clock_seconds() -> Option<u64> {
    match std::time::SystemTime::now().duration_since(std::time::SystemTime::UNIX_EPOCH) {
        Ok(elapsed) => Some(elapsed.as_secs()),
        Err(_) => None,
    }
}

/// Two valid dates with the same day number are the same date.
///
/// With the contracts of [`Date::days_since_year_zero`] and
/// [`Date::from_days_since_year_zero`] this gives the round trip in both
/// directions: converting a day number to a date and back yields the same
/// day number, and converting a valid date to its day number and back
/// yields the same date.
pub proof fn lemma_date_day_number_injective(d1: Date, d2: Date)
    requires
        d1.valid(),
        d2.valid(),
        d1.spec_day_number() == d2.spec_day_number(),
    ensures
        d1 == d2,
{
    crate::day_count::lemma_day_number_injective(
        d1.year.number as int,
        month_number(d1.month),
        d1.day as int,
        d2.year.number as int,
        month_number(d2.month),
        d2.day as int,
    );
    crate::month::lemma_month_number_of_number(d1.month);
    crate::month::lemma_month_number_of_number(d2.month);
}

/// The split of a day number into whole 400-year cycles and a day index
/// within the current cycle.
proof fn lemma_whole_cycles(days: int, day_index: int, whole_cycles: int)
    requires
        crate::day_count::min_day_number() <= days < crate::day_count::end_day_number(),
        day_index == days % 146097,
        whole_cycles == crate::util::trunc_div(days - day_index, 146097),
    ensures
        days == 146097 * whole_cycles + day_index,
        0 <= day_index < 146097,
        -82 <= whole_cycles <= 82,
{
    vstd::arithmetic::div_mod::lemma_fundamental_div_mod(days, 146097);
    vstd::arithmetic::div_mod::lemma_mod_division_less_than_divisor(days, 146097);
    let q = days / 146097;
    assert(days - day_index == 146097 * q) by {
        assert(days == 146097 * q + day_index);
    }
    assert((days - day_index) % 146097 == 0 && (days - day_index) / 146097 == q) by {
        assert(days - day_index == q * 146097 + 0) by (nonlinear_arith)
            requires
                days - day_index == 146097 * q,
        ;
        vstd::arithmetic::div_mod::lemma_fundamental_div_mod_converse(
            days - day_index,
            146097,
            q,
            0,
        );
    }
    crate::util::lemma_trunc_div_rem(days - day_index, 146097);
    assert(days_before_year(-0x8000) == -11968266int);
    assert(days_before_year(0x8000) == 11968266int);
    assert(-82 <= q <= 82) by {
        assert(146097 * q == days - day_index);
    }
}

/// The year assembled from the cycle decode is the year of the day number,
/// and it fits in `i16`.
proof fn lemma_assemble_year(days: int, wc: int, f: int, j: int, doy: int)
    requires
        crate::day_count::min_day_number() <= days < crate::day_count::end_day_number(),
        0 <= f <= 99,
        0 <= j <= 3,
        is_leap_year(4 * f + j) == (j == 0 && !(f == 25 || f == 50 || f == 75)),
        1 <= doy <= (if j == 0 {
            366int
        } else {
            365int
        }),
        (j == 0 && (f == 25 || f == 50 || f == 75)) ==> doy != 60,
        days == 146097 * wc + days_before_year(4 * f + j) + (doy - (if (j == 0 && (f == 25 || f
            == 50 || f == 75)) && doy >= 61 {
            1int
        } else {
            0int
        })) - 1,
    ensures
        ({
            let y = 400 * wc + 4 * f + j;
            let adoy = doy - (if (j == 0 && (f == 25 || f == 50 || f == 75)) && doy >= 61 {
                1int
            } else {
                0int
            });
            &&& -0x8000 <= y <= 0x7fff
            &&& is_leap_year(y) == is_leap_year(4 * f + j)
            &&& days == days_before_year(y) + adoy - 1
            &&& 1 <= adoy <= days_in_year(y)
        }),
{
    let yc = 4 * f + j;
    let y = 400 * wc + yc;
    let lie = j == 0 && (f == 25 || f == 50 || f == 75);
    let adoy = doy - (if lie && doy >= 61 {
        1int
    } else {
        0int
    });
    crate::day_count::lemma_days_before_year_cycle(wc, yc);
    crate::day_count::lemma_leap_mod_400(wc, yc);
    assert(days == days_before_year(y) + adoy - 1);
    assert(1 <= adoy <= days_in_year(y));
    assert(days_before_year(-0x8000) == -11968266int);
    assert(days_before_year(0x8000) == 11968266int);
    if y >= 0x8000 {
        crate::day_count::lemma_days_before_year_monotonic(0x8000, y);
        assert(false);
    }
    if y < -0x8000 {
        crate::day_count::lemma_days_before_year_succ(y);
        crate::day_count::lemma_days_before_year_monotonic(y + 1, -0x8000);
        assert(days <= days_before_year(y) + days_in_year(y) - 1);
        assert(false);
    }
}

/// The 400-year-cycle computation of `days_since_year_zero` agrees with
/// `days_before_year`.
proof fn lemma_days_since_year_zero(y: int, years: int, whole_cycles: int)
    requires
        -0x8000 <= y <= 0x7fff,
        years == y % 400,
        whole_cycles == crate::util::trunc_div(y - years, 400),
    ensures
        0 <= years < 400,
        0 <= years / 4 <= 99,
        0 <= years / 100 <= 3,
        -82 <= whole_cycles <= 82,
        is_leap_year(y) == is_leap_year(years),
        days_before_year(y) == whole_cycles * 146097 + years * 365 + years / 4 - years / 100 + 1
            - (if is_leap_year(y) {
            1int
        } else {
            0int
        }),
        -11968266 <= days_before_year(y) <= 11967901,
{
    vstd::arithmetic::div_mod::lemma_fundamental_div_mod(y, 400);
    vstd::arithmetic::div_mod::lemma_mod_division_less_than_divisor(y, 400);
    let q = y / 400;
    assert(y - years == 400 * q) by {
        assert(y == 400 * q + years);
    }
    assert((y - years) % 400 == 0 && (y - years) / 400 == q) by {
        assert(y - years == q * 400 + 0) by (nonlinear_arith)
            requires
                y - years == 400 * q,
        ;
        vstd::arithmetic::div_mod::lemma_fundamental_div_mod_converse(y - years, 400, q, 0);
    }
    crate::util::lemma_trunc_div_rem(y - years, 400);
    crate::day_count::lemma_days_before_year_cycle(q, years);
    crate::day_count::lemma_days_before_year_in_cycle(years);
    crate::day_count::lemma_leap_mod_400(q, years);
    assert(-82 <= q <= 82) by {
        assert(400 * q == y - years);
    }
    assert(whole_cycles * 146097 == 146097 * q) by (nonlinear_arith)
        requires
            whole_cycles == q,
    ;
    assert(0 <= years / 4 <= 99) by {
        vstd::arithmetic::div_mod::lemma_fundamental_div_mod(years, 4);
        vstd::arithmetic::div_mod::lemma_mod_division_less_than_divisor(years, 4);
    }
    assert(0 <= years / 100 <= 3) by {
        vstd::arithmetic::div_mod::lemma_fundamental_div_mod(years, 100);
        vstd::arithmetic::div_mod::lemma_mod_division_less_than_divisor(years, 100);
    }
    crate::day_count::lemma_days_before_year_monotonic(-0x8000, y);
    crate::day_count::lemma_days_before_year_monotonic(y, 0x7fff);
    assert(days_before_year(-0x8000) == -11968266int);
    assert(days_before_year(0x7fff) == 11967901int);
}

} // verus!
