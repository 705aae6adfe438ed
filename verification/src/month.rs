use vstd::prelude::*;

use crate::error::InvalidMonthNumber;
use crate::year::Year;
use crate::year_month::YearMonth;

verus! {

/// A month on the Gregorian calendar.
#[derive(Copy, Clone, Debug, PartialEq, Eq, Structural, PartialOrd, Ord, Hash)]
pub enum Month {
    January,
    February,
    March,
    April,
    May,
    June,
    July,
    August,
    September,
    October,
    November,
    December,
}

/// The number of a month: 1 for January through 12 for December.
pub open spec fn month_number(m: Month) -> int {
    match m {
        Month::January => 1,
        Month::February => 2,
        Month::March => 3,
        Month::April => 4,
        Month::May => 5,
        Month::June => 6,
        Month::July => 7,
        Month::August => 8,
        Month::September => 9,
        Month::October => 10,
        Month::November => 11,
        Month::December => 12,
    }
}

/// The month with a given number: January for 1 through December for 12.
pub open spec fn month_of_number(n: int) -> Month {
    if n == 1 {
        Month::January
    } else if n == 2 {
        Month::February
    } else if n == 3 {
        Month::March
    } else if n == 4 {
        Month::April
    } else if n == 5 {
        Month::May
    } else if n == 6 {
        Month::June
    } else if n == 7 {
        Month::July
    } else if n == 8 {
        Month::August
    } else if n == 9 {
        Month::September
    } else if n == 10 {
        Month::October
    } else if n == 11 {
        Month::November
    } else {
        Month::December
    }
}

/// The two spec views of a month invert each other.
pub proof fn lemma_month_number_of_number(m: Month)
    ensures
        month_of_number(month_number(m)) == m,
        1 <= month_number(m) <= 12,
{
}

impl Month {
    /// Create a new month from a month number.
    ///
    /// The number must be in the range 1-12 (inclusive).
    pub fn new(month: u8) -> (r: Result<Self, InvalidMonthNumber>)
        ensures
            1 <= month <= 12 ==> r == Ok::<Month, InvalidMonthNumber>(
                month_of_number(month as int),
            ),
            !(1 <= month <= 12) ==> r == Err::<Month, InvalidMonthNumber>(
                InvalidMonthNumber { number: month },
            ),
    {
        match month {
            1 => Ok(Self::January),
            2 => Ok(Self::February),
            3 => Ok(Self::March),
            4 => Ok(Self::April),
            5 => Ok(Self::May),
            6 => Ok(Self::June),
            7 => Ok(Self::July),
            8 => Ok(Self::August),
            9 => Ok(Self::September),
            10 => Ok(Self::October),
            11 => Ok(Self::November),
            12 => Ok(Self::December),
            number => Err(InvalidMonthNumber { number }),
        }
    }

    /// Get the month number in the range 1-12.
    pub fn to_number(self) -> (r: u8)
        ensures
            r == month_number(self),
            1 <= r <= 12,
    {
        match self {
            Self::January => 1,
            Self::February => 2,
            Self::March => 3,
            Self::April => 4,
            Self::May => 5,
            Self::June => 6,
            Self::July => 7,
            Self::August => 8,
            Self::September => 9,
            Self::October => 10,
            Self::November => 11,
            Self::December => 12,
        }
    }

    /// Create a month from a number known to be in the range 1-12.
    fn from_number(number: u8) -> (r: Self)
        requires
            1 <= number <= 12,
        ensures
            r == month_of_number(number as int),
    {
        match number {
            1 => Self::January,
            2 => Self::February,
            3 => Self::March,
            4 => Self::April,
            5 => Self::May,
            6 => Self::June,
            7 => Self::July,
            8 => Self::August,
            9 => Self::September,
            10 => Self::October,
            11 => Self::November,
            _ => Self::December,
        }
    }

    /// The English name of the month.
    pub fn name(self) -> (r: &'static str)
        ensures
            r@ == month_name(self),
    {
        match self {
            Self::January => "January",
            Self::February => "February",
            Self::March => "March",
            Self::April => "April",
            Self::May => "May",
            Self::June => "June",
            Self::July => "July",
            Self::August => "August",
            Self::September => "September",
            Self::October => "October",
            Self::November => "November",
            Self::December => "December",
        }
    }

    /// Combine the month with a year to create a [`YearMonth`].
    pub fn with_year(self, year: i16) -> (r: YearMonth)
        ensures
            r == (YearMonth { year: Year { number: year }, month: self }),
    {
        YearMonth { year: Year { number: year }, month: self }
    }

    /// Add a number of months, wrapping back to January after December.
    pub fn wrapping_add(self, count: i8) -> (r: Self)
        ensures
            month_number(r) == 1 + (month_number(self) - 1 + count) % 12,
            r == month_of_number(1 + (month_number(self) - 1 + count) % 12),
    {
        let c: i8 = if count < 0 {
            (count % 12) + 12
        } else {
            count % 12
        };
        proof {
            crate::util::lemma_trunc_div_rem(count as int, 12);
        }
        let index: i8 = (self.to_number() as i8 - 1 + c) % 12;
        proof {
            let base = month_number(self) - 1;
            vstd::arithmetic::div_mod::lemma_mod_division_less_than_divisor(base + c, 12);
            // c differs from count by a multiple of 12
            if count < 0 {
                vstd::arithmetic::div_mod::lemma_mod_sub_multiples_vanish(
                    count - crate::util::trunc_rem(count as int, 12),
                    12,
                );
            }
            crate::util::lemma_mod_congruent(base + c, base + count, 12);
            lemma_month_roundtrip(1 + index as int);
        }
        Self::from_number(index as u8 + 1)
    }

    /// Subtract a number of months, wrapping back to December after January.
    pub fn wrapping_sub(self, count: i8) -> (r: Self)
        ensures
            month_number(r) == 1 + (month_number(self) - 1 - count) % 12,
            r == month_of_number(1 + (month_number(self) - 1 - count) % 12),
    {
        // Take the remainder before negating, to avoid negating i8::MIN.
        let c = count % 12;
        proof {
            crate::util::lemma_trunc_div_rem(count as int, 12);
        }
        let r = self.wrapping_add(-c);
        proof {
            let base = month_number(self) - 1;
            crate::util::lemma_mod_zero_neg(count - c, 12);
            crate::util::lemma_mod_congruent(base - c, base - count, 12);
        }
        r
    }

    /// Get the next month, wrapping back to January after December.
    pub fn wrapping_next(self) -> (r: Self)
        ensures
            month_number(r) == 1 + (month_number(self) - 1 + 1) % 12,
            r == month_of_number(1 + (month_number(self) - 1 + 1) % 12),
    {
        self.wrapping_add(1)
    }

    /// Get the previous month, wrapping back to December after January.
    pub fn wrapping_prev(self) -> (r: Self)
        ensures
            month_number(r) == 1 + (month_number(self) - 1 - 1) % 12,
            r == month_of_number(1 + (month_number(self) - 1 - 1) % 12),
    {
        self.wrapping_add(-1)
    }
}

/// The English name of a month, as a sequence of characters.
pub open spec fn month_name(m: Month) -> Seq<char> {
    match m {
        Month::January => "January"@,
        Month::February => "February"@,
        Month::March => "March"@,
        Month::April => "April"@,
        Month::May => "May"@,
        Month::June => "June"@,
        Month::July => "July"@,
        Month::August => "August"@,
        Month::September => "September"@,
        Month::October => "October"@,
        Month::November => "November"@,
        Month::December => "December"@,
    }
}

/// Taking the month of a number in the range 1-12 and reading its number
/// back gives the same number.
pub proof fn lemma_month_roundtrip(n: int)
    requires
        1 <= n <= 12,
    ensures
        month_number(month_of_number(n)) == n,
{
}

/// Adding any whole number of twelve-month cycles to a month wraps all the
/// way around: the result is the month itself, for positive and negative
/// cycle counts alike.
pub proof fn lemma_wrapping_add_full_cycles(m: Month, k: int)
    ensures
        month_of_number(1 + (month_number(m) - 1 + 12 * k) % 12) == m,
{
    let base = month_number(m) - 1;
    vstd::arithmetic::div_mod::lemma_mod_multiples_vanish(k, base, 12);
    vstd::arithmetic::div_mod::lemma_small_mod(base as nat, 12nat);
    lemma_month_number_of_number(m);
}

} // verus!
