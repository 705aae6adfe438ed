//! A proleptic Gregorian calendar, compatible with ISO 8601.
//!
//! The calendar has a year zero preceding year 1, and year zero is a leap
//! year.  The [`Date`] type represents a date (year, month and day), the
//! [`Year`] type a calendar year, the [`Month`] type a calendar month, and
//! the [`YearMonth`] type a month of a specific year.
//!
//! This crate does not deal with times or time zones.

mod date;
mod day_count;
mod error;
mod ext;
mod month;
mod raw;
mod text;
mod util;
mod year;
mod year_month;

pub use date::{lemma_date_day_number_injective, Date};
pub use day_count::{
    day_number, day_of_year_num, days_before_year, days_in_month_num, days_in_year, is_leap_year,
    lemma_day_number_injective, lemma_day_number_ordered, lemma_day_of_year_bounds,
    lemma_day_of_year_injective, lemma_days_before_year_succ, lemma_month_table, min_day_number,
    end_day_number, month_start_num, valid_month_day,
};
pub use error::{
    DateParseError, InvalidDate, InvalidDateSyntax, InvalidDayOfMonth, InvalidDayOfYear,
    InvalidMonthNumber,
};
pub use ext::DateResultExt;
pub use month::{
    lemma_month_number_of_number, lemma_month_roundtrip, lemma_wrapping_add_full_cycles,
    month_number, month_of_number, Month,
};
pub use raw::{day_of_year, days_in_month, month_and_day_from_day_of_year, start_day_of_year};
pub use text::{
    all_digits, date_chars, dec_digits, dec_padded, digit_char, digit_val, digits_val, field_ok,
    find_dash, is_digit, lemma_parse_format_roundtrip, spec_parse, year_chars, year_field_ok,
    year_field_val, year_month_chars, zeros,
};
pub use util::{modulo_i16, modulo_i32};
pub use year::Year;
pub use year_month::{
    lemma_add_months_composes, lemma_add_twelve_months_is_add_years,
    lemma_year_month_index_injective, lemma_year_month_index_parts, max_year_month_index,
    min_year_month_index, year_month_index, YearMonth,
};
