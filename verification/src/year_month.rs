use vstd::prelude::*;

use crate::date::Date;
use crate::day_count::{days_in_month_num, is_leap_year, month_start_num};
use crate::error::InvalidDayOfMonth;
use crate::month::{month_number, month_of_number, Month};
use crate::year::Year;

verus! {

/// A month of a specific year.
#[derive(Copy, Clone, Debug, PartialEq, Eq, Structural, PartialOrd, Ord, Hash)]
pub struct YearMonth {
    pub year: Year,
    pub month: Month,
}

/// The zero-based index of a year-month on the time line of months:
/// 12 per year, with index 0 for January of year 0.
pub open spec fn year_month_index(ym: YearMonth) -> int {
    12 * ym.year.number + month_number(ym.month) - 1
}

/// The smallest year-month index with a year that fits in `i16`.
pub open spec fn min_year_month_index() -> int {
    12 * -0x8000
}

/// The largest year-month index with a year that fits in `i16`.
pub open spec fn max_year_month_index() -> int {
    12 * 0x7fff + 11int
}

/// A year-month is determined by its index: the year is the floored
/// quotient of the index by 12 and the month its remainder, plus one.
pub proof fn lemma_year_month_index_parts(ym: YearMonth)
    ensures
        ym.year.number == year_month_index(ym) / 12,
        month_number(ym.month) == 1 + year_month_index(ym) % 12,
        min_year_month_index() <= year_month_index(ym) <= max_year_month_index(),
{
    crate::month::lemma_month_number_of_number(ym.month);
    let y = ym.year.number as int;
    let m = month_number(ym.month);
    assert(12 * y + m - 1 == y * 12 + (m - 1)) by (nonlinear_arith);
    vstd::arithmetic::div_mod::lemma_fundamental_div_mod_converse_div(
        year_month_index(ym),
        12,
        y,
        m - 1,
    );
    vstd::arithmetic::div_mod::lemma_fundamental_div_mod_converse_mod(
        year_month_index(ym),
        12,
        y,
        m - 1,
    );
}

/// Two year-months with the same index are the same year-month.
pub proof fn lemma_year_month_index_injective(a: YearMonth, b: YearMonth)
    requires
        year_month_index(a) == year_month_index(b),
    ensures
        a == b,
{
    lemma_year_month_index_parts(a);
    lemma_year_month_index_parts(b);
    crate::month::lemma_month_number_of_number(a.month);
    crate::month::lemma_month_number_of_number(b.month);
}

/// Adding `a` months and then `b` months is the same as adding `a + b`
/// months at once: the results agree whenever their month indices do, and
/// the indices compose additively.
pub proof fn lemma_add_months_composes(
    ym: YearMonth,
    step1: YearMonth,
    step2: YearMonth,
    direct: YearMonth,
    a: int,
    b: int,
)
    requires
        year_month_index(step1) == year_month_index(ym) + a,
        year_month_index(step2) == year_month_index(step1) + b,
        year_month_index(direct) == year_month_index(ym) + (a + b),
    ensures
        step2 == direct,
{
    lemma_year_month_index_injective(step2, direct);
}

/// Adding twelve times `k` months is the same as adding `k` years: the
/// month is unchanged and the year advances by `k`.
pub proof fn lemma_add_twelve_months_is_add_years(ym: YearMonth, by_months: YearMonth, k: int)
    requires
        year_month_index(by_months) == year_month_index(ym) + 12 * k,
    ensures
        by_months.year.number == ym.year.number + k,
        by_months.month == ym.month,
{
    lemma_year_month_index_parts(ym);
    lemma_year_month_index_parts(by_months);
    crate::month::lemma_month_number_of_number(ym.month);
    crate::month::lemma_month_number_of_number(by_months.month);
    let idx = year_month_index(ym) + 12 * k;
    assert(idx == 12 * (ym.year.number + k) + (month_number(ym.month) - 1));
    assert(idx == (ym.year.number + k) * 12 + (month_number(ym.month) - 1)) by (nonlinear_arith)
        requires
            idx == 12 * (ym.year.number + k) + (month_number(ym.month) - 1),
    ;
    vstd::arithmetic::div_mod::lemma_fundamental_div_mod_converse(
        idx,
        12,
        ym.year.number + k,
        month_number(ym.month) - 1,
    );
}

impl YearMonth {
    /// Create a new year-month from a year number and a month.
    pub fn new(year: i16, month: Month) -> (r: Self)
        ensures
            r == (YearMonth { year: Year { number: year }, month }),
    {
        Self { year: Year { number: year }, month }
    }

    /// Create a new year-month from a [`Year`] and a month.
    pub fn new_const(year: Year, month: Month) -> (r: Self)
        ensures
            r == (YearMonth { year, month }),
    {
        Self { year, month }
    }

    /// Get the year.
    pub fn year(self) -> (r: Year)
        ensures
            r == self.year,
    {
        self.year
    }

    /// Get the month.
    pub fn month(self) -> (r: Month)
        ensures
            r == self.month,
    {
        self.month
    }

    /// Get the total number of days in the month.
    ///
    /// This function accounts for leap days, so it reports 29 days for
    /// February of leap years, and 28 days for other years.
    pub fn total_days(self) -> (r: u8)
        ensures
            r == days_in_month_num(month_number(self.month), is_leap_year(self.year.number as int)),
    {
        crate::raw::days_in_month(self.month, self.year.has_leap_day())
    }

    /// Get the day-of-year on which the month starts.
    ///
    /// Day-of-year numbers are 1-based.
    pub fn day_of_year(self) -> (r: u16)
        ensures
            r == month_start_num(month_number(self.month), is_leap_year(self.year.number as int)),
    {
        crate::raw::start_day_of_year(self.month, self.year.has_leap_day())
    }

    /// Get the next month as [`YearMonth`].
    ///
    /// After December, this function returns January of the next year.
    pub fn next(self) -> (r: Self)
        requires
            !(self.month is December && self.year.number == i16::MAX),
        ensures
            year_month_index(r) == year_month_index(self) + 1,
            self.month is December ==> r.year.number == self.year.number + 1 && r.month
                is January,
            !(self.month is December) ==> r.year == self.year && month_number(r.month)
                == month_number(self.month) + 1,
    {
        if let Month::December = self.month {
            Self::new_const(self.year.next(), Month::January)
        } else {
            proof {
                vstd::arithmetic::div_mod::lemma_small_mod(
                    (month_number(self.month) - 1 + 1) as nat,
                    12nat,
                );
            }
            Self::new_const(self.year, self.month.wrapping_next())
        }
    }

    /// Get the previous month as [`YearMonth`].
    ///
    /// After January, this function returns December of the previous year.
    pub fn prev(self) -> (r: Self)
        requires
            !(self.month is January && self.year.number == i16::MIN),
        ensures
            year_month_index(r) == year_month_index(self) - 1,
            self.month is January ==> r.year.number == self.year.number - 1 && r.month
                is December,
            !(self.month is January) ==> r.year == self.year && month_number(r.month)
                == month_number(self.month) - 1,
    {
        if let Month::January = self.month {
            Self::new_const(self.year.prev(), Month::December)
        } else {
            proof {
                vstd::arithmetic::div_mod::lemma_small_mod(
                    (month_number(self.month) - 1 - 1) as nat,
                    12nat,
                );
            }
            Self::new_const(self.year, self.month.wrapping_prev())
        }
    }

    /// Get a new [`YearMonth`] by adding a number of years.
    pub fn add_years(self, years: i16) -> (r: Self)
        requires
            i16::MIN <= self.year.number + years <= i16::MAX,
        ensures
            r.year.number == self.year.number + years,
            r.month == self.month,
    {
        let year = Year::new(self.year.to_number() + years);
        year.with_month(self.month())
    }

    /// Get a new [`YearMonth`] by subtracting a number of years.
    pub fn sub_years(self, years: i16) -> (r: Self)
        requires
            i16::MIN <= self.year.number - years <= i16::MAX,
        ensures
            r.year.number == self.year.number - years,
            r.month == self.month,
    {
        let year = Year::new(self.year.to_number() - years);
        year.with_month(self.month())
    }

    /// Get a new [`YearMonth`] by adding a number of months.
    pub fn add_months(self, months: i32) -> (r: Self)
        requires
            min_year_month_index() <= year_month_index(self) + months <= max_year_month_index(),
        ensures
            year_month_index(r) == year_month_index(self) + months,
            r.year.number == (year_month_index(self) + months) / 12,
            month_number(r.month) == 1 + (year_month_index(self) + months) % 12,
    {
        proof {
            lemma_year_month_index_parts(self);
        }
        // Split the calculation for years and months.
        let base: i32 = (self.month().to_number() as i32 - 1) + months;
        let mut year: i32 = self.year().to_number() as i32 + base / 12;
        let month = Month::January.wrapping_add((base % 12) as i8);

        // When the remainder is negative, the division above was rounded
        // towards zero instead of down, so the year must shrink by one.
        if base % 12 < 0 {
            year = year - 1;
        }
        proof {
            lemma_add_months_split(
                year_month_index(self),
                self.year.number as int,
                month_number(self.month),
                months as int,
                year as int,
            );
        }
        Year::new(year as i16).with_month(month)
    }

    /// Get a new [`YearMonth`] by subtracting a number of months.
    pub fn sub_months(self, months: i32) -> (r: Self)
        requires
            months > i32::MIN,
            min_year_month_index() <= year_month_index(self) - months <= max_year_month_index(),
        ensures
            year_month_index(r) == year_month_index(self) - months,
            r.year.number == (year_month_index(self) - months) / 12,
            month_number(r.month) == 1 + (year_month_index(self) - months) % 12,
    {
        self.add_months(-months)
    }

    /// Combine the year and month with a day, to create a full [`Date`].
    pub fn with_day(self, day: u8) -> (r: Result<Date, InvalidDayOfMonth>)
        ensures
            (1 <= day <= days_in_month_num(
                month_number(self.month),
                is_leap_year(self.year.number as int),
            )) <==> r is Ok,
            r is Ok ==> r->Ok_0 == (Date { year: self.year, month: self.month, day }),
            r is Ok ==> r->Ok_0.valid(),
            r is Err ==> r->Err_0 == (InvalidDayOfMonth {
                year: self.year,
                month: self.month,
                day,
            }),
    {
        match InvalidDayOfMonth::check(self.year, self.month, day) {
            Err(e) => Err(e),
            Ok(()) => Ok(Date { year: self.year, month: self.month, day }),
        }
    }

    /// Combine the year and month with a day known to be valid for the
    /// month, without checking.
    pub fn with_day_unchecked(self, day: u8) -> (r: Date)
        requires
            1 <= day <= days_in_month_num(
                month_number(self.month),
                is_leap_year(self.year.number as int),
            ),
        ensures
            r == (Date { year: self.year, month: self.month, day }),
            r.valid(),
    {
        Date { year: self.year, month: self.month, day }
    }

    /// Get the first day of the month as [`Date`].
    pub fn first_day(self) -> (r: Date)
        ensures
            r == (Date { year: self.year, month: self.month, day: 1 }),
            r.valid(),
    {
        Date { year: self.year, month: self.month, day: 1 }
    }

    /// Get the last day of the month as [`Date`].
    pub fn last_day(self) -> (r: Date)
        ensures
            r == (Date {
                year: self.year,
                month: self.month,
                day: days_in_month_num(
                    month_number(self.month),
                    is_leap_year(self.year.number as int),
                ) as u8,
            }),
            r.valid(),
    {
        Date { year: self.year, month: self.month, day: self.total_days() }
    }
}

/// The year and month computed by `add_months` land on the month index
/// that is the sum of the starting index and the offset.
proof fn lemma_add_months_split(idx: int, y: int, mn: int, months: int, year_out: int)
    requires
        idx == 12 * y + mn - 1,
        1 <= mn <= 12,
        min_year_month_index() <= idx + months <= max_year_month_index(),
        year_out == y + crate::util::trunc_div(mn - 1 + months, 12) + (if crate::util::trunc_rem(
            mn - 1 + months,
            12,
        ) < 0 {
            -1
        } else {
            0
        }),
    ensures
        12 * year_out + (1 + (0 + crate::util::trunc_rem(mn - 1 + months, 12)) % 12) - 1 == idx
            + months,
        year_out == (idx + months) / 12,
        1 + (0 + crate::util::trunc_rem(mn - 1 + months, 12)) % 12 == 1 + (idx + months) % 12,
        min_year_month_index() / 12 <= year_out <= max_year_month_index() / 12,
{
    let base = mn - 1 + months;
    crate::util::lemma_trunc_div_rem(base, 12);
    let td = crate::util::trunc_div(base, 12);
    let tr = crate::util::trunc_rem(base, 12);
    let emod = (0 + tr) % 12;
    if tr >= 0 {
        vstd::arithmetic::div_mod::lemma_small_mod(tr as nat, 12nat);
        assert(emod == tr);
    } else {
        assert(tr == 1 * 12 + (tr - 12) == tr);
        vstd::arithmetic::div_mod::lemma_fundamental_div_mod_converse_mod(tr, 12, -1, tr + 12);
        assert(emod == tr + 12);
    }
    // In both cases 12 * year_out + emod == 12 * y + base == idx + months - 0
    assert(12 * year_out + emod == idx + months) by (nonlinear_arith)
        requires
            idx == 12 * y + mn - 1,
            base == mn - 1 + months,
            base == 12 * td + tr,
            year_out == y + td + (if tr < 0 {
                -1int
            } else {
                0int
            }),
            emod == (if tr < 0 {
                tr + 12
            } else {
                tr
            }),
    ;
    assert(idx + months == year_out * 12 + emod) by (nonlinear_arith)
        requires
            12 * year_out + emod == idx + months,
    ;
    vstd::arithmetic::div_mod::lemma_fundamental_div_mod_converse_div(
        idx + months,
        12,
        year_out,
        emod,
    );
    vstd::arithmetic::div_mod::lemma_fundamental_div_mod_converse_mod(
        idx + months,
        12,
        year_out,
        emod,
    );
    assert(min_year_month_index() / 12 <= year_out <= max_year_month_index() / 12) by {
        vstd::arithmetic::div_mod::lemma_div_is_ordered(min_year_month_index(), idx + months, 12);
        vstd::arithmetic::div_mod::lemma_div_is_ordered(idx + months, max_year_month_index(), 12);
    }
}

} // verus!
