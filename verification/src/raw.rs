use vstd::prelude::*;

use crate::day_count::{day_of_year_num, days_in_month_num, month_start_num, valid_month_day};
use crate::month::{month_number, Month};

verus! {

/// Get the month and day of month for a day of year.
pub fn month_and_day_from_day_of_year(day_of_year: u16, leap_year: bool) -> (r: Result<
    (Month, u8),
    (),
>)
    ensures
        (1 <= day_of_year <= (if leap_year {
            366int
        } else {
            365int
        })) <==> r is Ok,
        r is Ok ==> valid_month_day(month_number(r->Ok_0.0), r->Ok_0.1 as int, leap_year)
            && day_of_year_num(month_number(r->Ok_0.0), r->Ok_0.1 as int, leap_year)
            == day_of_year,
{
    let d = day_of_year;
    if !leap_year {
        if d >= 1 && d <= 31 {
            Ok((Month::January, d as u8))
        } else if d >= 32 && d <= 59 {
            Ok((Month::February, (d - 31) as u8))
        } else if d >= 60 && d <= 90 {
            Ok((Month::March, (d - 59) as u8))
        } else if d >= 91 && d <= 120 {
            Ok((Month::April, (d - 90) as u8))
        } else if d >= 121 && d <= 151 {
            Ok((Month::May, (d - 120) as u8))
        } else if d >= 152 && d <= 181 {
            Ok((Month::June, (d - 151) as u8))
        } else if d >= 182 && d <= 212 {
            Ok((Month::July, (d - 181) as u8))
        } else if d >= 213 && d <= 243 {
            Ok((Month::August, (d - 212) as u8))
        } else if d >= 244 && d <= 273 {
            Ok((Month::September, (d - 243) as u8))
        } else if d >= 274 && d <= 304 {
            Ok((Month::October, (d - 273) as u8))
        } else if d >= 305 && d <= 334 {
            Ok((Month::November, (d - 304) as u8))
        } else if d >= 335 && d <= 365 {
            Ok((Month::December, (d - 334) as u8))
        } else {
            Err(())
        }
    } else {
        if d >= 1 && d <= 31 {
            Ok((Month::January, d as u8))
        } else if d >= 32 && d <= 60 {
            Ok((Month::February, (d - 31) as u8))
        } else if d >= 61 && d <= 91 {
            Ok((Month::March, (d - 60) as u8))
        } else if d >= 92 && d <= 121 {
            Ok((Month::April, (d - 91) as u8))
        } else if d >= 122 && d <= 152 {
            Ok((Month::May, (d - 121) as u8))
        } else if d >= 153 && d <= 182 {
            Ok((Month::June, (d - 152) as u8))
        } else if d >= 183 && d <= 213 {
            Ok((Month::July, (d - 182) as u8))
        } else if d >= 214 && d <= 244 {
            Ok((Month::August, (d - 213) as u8))
        } else if d >= 245 && d <= 274 {
            Ok((Month::September, (d - 244) as u8))
        } else if d >= 275 && d <= 305 {
            Ok((Month::October, (d - 274) as u8))
        } else if d >= 306 && d <= 335 {
            Ok((Month::November, (d - 305) as u8))
        } else if d >= 336 && d <= 366 {
            Ok((Month::December, (d - 335) as u8))
        } else {
            Err(())
        }
    }
}

/// Get the number of days in a month.
pub fn days_in_month(month: Month, leap_year: bool) -> (r: u8)
    ensures
        r == days_in_month_num(month_number(month), leap_year),
{
    match month {
        Month::January => 31,
        Month::February => if leap_year {
            29
        } else {
            28
        },
        Month::March => 31,
        Month::April => 30,
        Month::May => 31,
        Month::June => 30,
        Month::July => 31,
        Month::August => 31,
        Month::September => 30,
        Month::October => 31,
        Month::November => 30,
        Month::December => 31,
    }
}

/// Get the day of year for the start of a month.
///
/// Day-of-year numbers are 1-based.
pub fn start_day_of_year(month: Month, leap_year: bool) -> (r: u16)
    ensures
        r == month_start_num(month_number(month), leap_year),
{
    let base: u16 = match month {
        Month::January => 1,
        Month::February => 32,
        Month::March => 60,
        Month::April => 91,
        Month::May => 121,
        Month::June => 152,
        Month::July => 182,
        Month::August => 213,
        Month::September => 244,
        Month::October => 274,
        Month::November => 305,
        Month::December => 335,
    };
    if leap_year && base > 32 {
        base + 1
    } else {
        base
    }
}

/// Get the day of year for a day of month.
pub fn day_of_year(month: Month, day_of_month: u8, leap_year: bool) -> (r: u16)
    ensures
        r == day_of_year_num(month_number(month), day_of_month as int, leap_year),
{
    start_day_of_year(month, leap_year) - 1 + day_of_month as u16
}

} // verus!
