use vstd::prelude::*;

verus! {

// ---------------------------------------------------------------------------
// The mathematical model of the calendar.
//
// A date is modelled as a triple of integers (year, month number, day of
// month).  Day numbers count days since 1 January of year 0, which is day 0.
// All divisions below are by positive constants, so the Euclidean `/` and `%`
// of spec code coincide with floored division and remainder.
// ---------------------------------------------------------------------------
/// Whether a year contains a leap day (29 February).
///
/// A year has a leap day when it is divisible by 4, except century years
/// that are not divisible by 400.  Year 0 is a leap year.
pub open spec fn is_leap_year(y: int) -> bool {
    y % 4 == 0 && (y % 100 != 0 || y % 400 == 0)
}

/// The number of days in a year: 366 in leap years, 365 otherwise.
pub open spec fn days_in_year(y: int) -> int {
    if is_leap_year(y) {
        366
    } else {
        365
    }
}

/// The number of days in a month, by month number 1-12.
pub open spec fn days_in_month_num(mn: int, leap: bool) -> int {
    if mn == 2 {
        if leap {
            29
        } else {
            28
        }
    } else if mn == 4 || mn == 6 || mn == 9 || mn == 11 {
        30
    } else {
        31
    }
}

/// The 1-based day of the year on which a month starts, by month number 1-12.
pub open spec fn month_start_num(mn: int, leap: bool) -> int {
    let shift: int = if leap {
        1
    } else {
        0
    };
    if mn <= 1 {
        1
    } else if mn == 2 {
        32
    } else if mn == 3 {
        60 + shift
    } else if mn == 4 {
        91 + shift
    } else if mn == 5 {
        121 + shift
    } else if mn == 6 {
        152 + shift
    } else if mn == 7 {
        182 + shift
    } else if mn == 8 {
        213 + shift
    } else if mn == 9 {
        244 + shift
    } else if mn == 10 {
        274 + shift
    } else if mn == 11 {
        305 + shift
    } else {
        335 + shift
    }
}

/// The 1-based day of the year of a (month number, day of month) pair.
pub open spec fn day_of_year_num(mn: int, dom: int, leap: bool) -> int {
    month_start_num(mn, leap) - 1 + dom
}

/// Whether a (month number, day of month) pair names a day of a year.
pub open spec fn valid_month_day(mn: int, dom: int, leap: bool) -> bool {
    1 <= mn <= 12 && 1 <= dom <= days_in_month_num(mn, leap)
}

/// The number of leap years `k` with `0 <= k < y`, counted negatively for
/// `y < 0` (then it counts leap years `k` with `y <= k < 0`).
pub open spec fn leap_years_before(y: int) -> int {
    (y + 3) / 4 - (y + 99) / 100 + (y + 399) / 400
}

/// The day number of 1 January of year `y`: the number of days between
/// 1 January of year 0 and 1 January of year `y` (negative for `y < 0`).
pub open spec fn days_before_year(y: int) -> int {
    365 * y + leap_years_before(y)
}

/// The day number of a date: days since 1 January of year 0 (day 0).
pub open spec fn day_number(y: int, mn: int, dom: int) -> int {
    days_before_year(y) + day_of_year_num(mn, dom, is_leap_year(y)) - 1
}

/// The smallest day number of a date with a year that fits in `i16`.
pub open spec fn min_day_number() -> int {
    days_before_year(-0x8000)
}

/// One past the largest day number of a date with a year that fits in `i16`.
pub open spec fn end_day_number() -> int {
    days_before_year(0x8000)
}

// ---------------------------------------------------------------------------
// Facts about the month tables.
// ---------------------------------------------------------------------------
/// Each month starts one day after the previous month ends, the year starts
/// with day 1 of January, and ends with the last day of December.
pub proof fn lemma_month_table(leap: bool)
    ensures
        forall|mn: int|
            1 <= mn < 12 ==> #[trigger] month_start_num(mn + 1, leap) == month_start_num(mn, leap)
                + days_in_month_num(mn, leap),
        month_start_num(1, leap) == 1,
        month_start_num(12, leap) + days_in_month_num(12, leap) == 1 + (if leap {
            366int
        } else {
            365int
        }),
{
}

/// Day-of-year numbers of valid dates stay within the year, and they are
/// ordered like the (month, day) pairs themselves.
pub proof fn lemma_day_of_year_bounds(mn: int, dom: int, leap: bool)
    requires
        valid_month_day(mn, dom, leap),
    ensures
        1 <= day_of_year_num(mn, dom, leap) <= (if leap {
            366int
        } else {
            365int
        }),
        mn < 12 ==> day_of_year_num(mn, dom, leap) < month_start_num(mn + 1, leap),
        day_of_year_num(mn, dom, leap) >= month_start_num(mn, leap),
{
}

/// Two valid (month, day) pairs with the same day of the year are equal.
pub proof fn lemma_day_of_year_injective(mn1: int, dom1: int, mn2: int, dom2: int, leap: bool)
    requires
        valid_month_day(mn1, dom1, leap),
        valid_month_day(mn2, dom2, leap),
        day_of_year_num(mn1, dom1, leap) == day_of_year_num(mn2, dom2, leap),
    ensures
        mn1 == mn2 && dom1 == dom2,
{
}

// ---------------------------------------------------------------------------
// Division helpers.
// ---------------------------------------------------------------------------
/// Stepping the dividend by the (positive) divisor steps the quotient by one,
/// and stepping it by one less does so exactly when the divisor divides it.
proof fn lemma_div_step(y: int, d: int)
    requires
        d > 0,
    ensures
        (y + d) / d == y / d + 1,
        (y + d - 1) / d == y / d + (if y % d == 0 {
            0int
        } else {
            1int
        }),
{
    vstd::arithmetic::div_mod::lemma_fundamental_div_mod(y, d);
    vstd::arithmetic::div_mod::lemma_mod_division_less_than_divisor(y, d);
    let q = y / d;
    let r = y % d;
    assert(y + d == (q + 1) * d + r) by (nonlinear_arith)
        requires
            y == d * q + r,
    ;
    vstd::arithmetic::div_mod::lemma_fundamental_div_mod_converse_div(y + d, d, q + 1, r);
    if r == 0 {
        assert(y + d - 1 == q * d + (d - 1)) by (nonlinear_arith)
            requires
                y == d * q + r,
                r == 0,
        ;
        vstd::arithmetic::div_mod::lemma_fundamental_div_mod_converse_div(y + d - 1, d, q, d - 1);
    } else {
        assert(y + d - 1 == (q + 1) * d + (r - 1)) by (nonlinear_arith)
            requires
                y == d * q + r,
        ;
        vstd::arithmetic::div_mod::lemma_fundamental_div_mod_converse_div(
            y + d - 1,
            d,
            q + 1,
            r - 1,
        );
    }
}

/// Splitting a dividend along a multiple of the (positive) divisor splits
/// the quotient.
proof fn lemma_div_split(k: int, x: int, d: int)
    requires
        d > 0,
    ensures
        (k * d + x) / d == k + x / d,
{
    vstd::arithmetic::div_mod::lemma_fundamental_div_mod(x, d);
    vstd::arithmetic::div_mod::lemma_mod_division_less_than_divisor(x, d);
    let q = x / d;
    let r = x % d;
    assert(k * d + x == (k + q) * d + r) by (nonlinear_arith)
        requires
            x == d * q + r,
    ;
    vstd::arithmetic::div_mod::lemma_fundamental_div_mod_converse_div(k * d + x, d, k + q, r);
}

// ---------------------------------------------------------------------------
// Facts about `days_before_year`.
// ---------------------------------------------------------------------------
/// Moving to the next year advances the day count by the length of the year.
pub proof fn lemma_days_before_year_succ(y: int)
    ensures
        days_before_year(y + 1) == days_before_year(y) + days_in_year(y),
{
    lemma_div_step(y, 4);
    lemma_div_step(y, 100);
    lemma_div_step(y, 400);
}

/// `days_before_year` grows by at least 365 and at most 366 per year.
pub proof fn lemma_days_before_year_monotonic(y1: int, y2: int)
    requires
        y1 <= y2,
    ensures
        days_before_year(y1) + 365 * (y2 - y1) <= days_before_year(y2) <= days_before_year(y1)
            + 366 * (y2 - y1),
    decreases y2 - y1,
{
    if y1 < y2 {
        lemma_days_before_year_monotonic(y1, y2 - 1);
        lemma_days_before_year_succ(y2 - 1);
    }
}

/// Whole 400-year cycles contribute exactly 146097 days each.
pub proof fn lemma_days_before_year_cycle(q: int, r: int)
    ensures
        days_before_year(400 * q + r) == 146097 * q + days_before_year(r),
{
    let y = 400 * q + r;
    assert(y + 3 == (100 * q) * 4 + (r + 3)) by (nonlinear_arith)
        requires
            y == 400 * q + r,
    ;
    lemma_div_split(100 * q, r + 3, 4);
    assert((y + 3) / 4 == 100 * q + (r + 3) / 4);
    assert(y + 99 == (4 * q) * 100 + (r + 99)) by (nonlinear_arith)
        requires
            y == 400 * q + r,
    ;
    lemma_div_split(4 * q, r + 99, 100);
    assert((y + 99) / 100 == 4 * q + (r + 99) / 100);
    assert(y + 399 == q * 400 + (r + 399)) by (nonlinear_arith)
        requires
            y == 400 * q + r,
    ;
    lemma_div_split(q, r + 399, 400);
    assert((y + 399) / 400 == q + (r + 399) / 400);
    assert(365 * y == 146000 * q + 365 * r) by (nonlinear_arith)
        requires
            y == 400 * q + r,
    ;
}

/// Leap years repeat with a period of 400 years.
pub proof fn lemma_leap_mod_400(q: int, r: int)
    ensures
        is_leap_year(400 * q + r) == is_leap_year(r),
{
    let y = 400 * q + r;
    assert((100 * q) * 4 + r == y) by (nonlinear_arith)
        requires
            y == 400 * q + r,
    ;
    lemma_mod_split(100 * q, r, 4);
    assert((4 * q) * 100 + r == y) by (nonlinear_arith)
        requires
            y == 400 * q + r,
    ;
    lemma_mod_split(4 * q, r, 100);
    lemma_mod_split(q, r, 400);
}

/// Adding a multiple of the (positive) divisor does not change the remainder.
proof fn lemma_mod_split(k: int, x: int, d: int)
    requires
        d > 0,
    ensures
        (k * d + x) % d == x % d,
{
    vstd::arithmetic::div_mod::lemma_fundamental_div_mod(x, d);
    vstd::arithmetic::div_mod::lemma_mod_division_less_than_divisor(x, d);
    let q = x / d;
    let r = x % d;
    assert(k * d + x == (k + q) * d + r) by (nonlinear_arith)
        requires
            x == d * q + r,
    ;
    vstd::arithmetic::div_mod::lemma_fundamental_div_mod_converse_mod(k * d + x, d, k + q, r);
}

/// Within one 400-year cycle, `days_before_year` matches the direct count
/// used by the day-number conversion: 365 days per year plus one for every
/// earlier leap year of the cycle.
pub proof fn lemma_days_before_year_in_cycle(r: int)
    requires
        0 <= r < 400,
    ensures
        days_before_year(r) == 365 * r + r / 4 - r / 100 + 1 - (if is_leap_year(r) {
            1int
        } else {
            0int
        }),
{
    lemma_div_step(r, 4);
    lemma_div_step(r, 100);
    lemma_div_step(r, 400);
    assert(r / 400 == 0) by {
        vstd::arithmetic::div_mod::lemma_basic_div(r, 400);
    }
    assert(r % 400 == r) by {
        vstd::arithmetic::div_mod::lemma_small_mod(r as nat, 400nat);
    }
    vstd::arithmetic::div_mod::lemma_mod_division_less_than_divisor(r, 4);
    vstd::arithmetic::div_mod::lemma_mod_division_less_than_divisor(r, 100);
}

/// The quotient and remainder of a division by a positive divisor, given
/// an enclosing pair of multiples.
proof fn lemma_div_mod_value(x: int, d: int, q: int)
    requires
        d > 0,
        d * q <= x < d * (q + 1),
    ensures
        x / d == q,
        x % d == x - d * q,
{
    let r = x - d * q;
    assert(0 <= r < d) by (nonlinear_arith)
        requires
            r == x - d * q,
            d * q <= x < d * (q + 1),
    ;
    assert(x == q * d + r) by (nonlinear_arith)
        requires
            r == x - d * q,
    ;
    vstd::arithmetic::div_mod::lemma_fundamental_div_mod_converse(x, d, q, r);
}

/// The start of a later month falls on a later day of the year.
proof fn lemma_month_start_monotonic(a: int, b: int, leap: bool)
    requires
        1 <= a <= b <= 12,
    ensures
        month_start_num(a, leap) <= month_start_num(b, leap),
{
}

/// Chronological order of valid dates is lexicographic order of their
/// (year, month, day) triples: an earlier triple has a smaller day number.
pub proof fn lemma_day_number_ordered(y1: int, mn1: int, dm1: int, y2: int, mn2: int, dm2: int)
    requires
        valid_month_day(mn1, dm1, is_leap_year(y1)),
        valid_month_day(mn2, dm2, is_leap_year(y2)),
        y1 < y2 || (y1 == y2 && mn1 < mn2) || (y1 == y2 && mn1 == mn2 && dm1 < dm2),
    ensures
        day_number(y1, mn1, dm1) < day_number(y2, mn2, dm2),
{
    let leap1 = is_leap_year(y1);
    let leap2 = is_leap_year(y2);
    lemma_day_of_year_bounds(mn1, dm1, leap1);
    lemma_day_of_year_bounds(mn2, dm2, leap2);
    if y1 < y2 {
        lemma_days_before_year_succ(y1);
        lemma_days_before_year_monotonic(y1 + 1, y2);
    } else if mn1 < mn2 {
        lemma_month_start_monotonic(mn1 + 1, mn2, leap1);
    }
}

/// Two valid dates with the same day number are the same date.
///
/// Together with the contracts of the day-number conversions this gives
/// the round trip: converting a day number to a date and back yields the
/// original day number, and converting a date to its day number and back
/// yields the original date.
pub proof fn lemma_day_number_injective(y1: int, mn1: int, dm1: int, y2: int, mn2: int, dm2: int)
    requires
        valid_month_day(mn1, dm1, is_leap_year(y1)),
        valid_month_day(mn2, dm2, is_leap_year(y2)),
        day_number(y1, mn1, dm1) == day_number(y2, mn2, dm2),
    ensures
        y1 == y2 && mn1 == mn2 && dm1 == dm2,
{
    if y1 < y2 || (y1 == y2 && mn1 < mn2) || (y1 == y2 && mn1 == mn2 && dm1 < dm2) {
        lemma_day_number_ordered(y1, mn1, dm1, y2, mn2, dm2);
    }
    if y2 < y1 || (y2 == y1 && mn2 < mn1) || (y2 == y1 && mn2 == mn1 && dm2 < dm1) {
        lemma_day_number_ordered(y2, mn2, dm2, y1, mn1, dm1);
    }
}

/// A date found in the leap-year table whose day of the year is not the
/// leap day itself also exists in the non-leap table, one day earlier from
/// March onwards.
pub proof fn lemma_leap_table_shift(mn: int, dom: int, doy: int)
    requires
        valid_month_day(mn, dom, true),
        doy == day_of_year_num(mn, dom, true),
        doy != 60,
    ensures
        valid_month_day(mn, dom, false),
        day_of_year_num(mn, dom, false) == doy - (if doy >= 61 {
            1int
        } else {
            0int
        }),
{
}

/// Decoding a day index within one 400-year cycle.
///
/// The index `dd` counts days from the start of the cycle.  The decode
/// first counts how many of the three skipped century leap days have
/// passed (`p`), then pretends they happened, which makes every fourth
/// year of the cycle a leap year: `f` four-year blocks pass, and day
/// `dofyc` of a block falls in year `j` of the block.  In the three
/// century years the pretence shifts the computed day of the year by one
/// from 1 March onwards.
pub proof fn lemma_cycle_decode(dd: int, p: int, f: int, dofyc: int, j: int, doy: int)
    requires
        0 <= dd < 146097,
        p == (if dd >= 109632 {
            3int
        } else if dd >= 73108 {
            2int
        } else if dd >= 36584 {
            1int
        } else {
            0int
        }),
        f == (dd + p) / 1461,
        dofyc == (dd + p) % 1461,
        j == (if dofyc == 0 {
            0int
        } else {
            (dofyc - 1) / 365
        }),
        doy == dofyc - 365 * j - (if dofyc >= 366 {
            1int
        } else {
            0int
        }) + 1,
    ensures
        0 <= f <= 99,
        0 <= j <= 3,
        0 <= 4 * f + j < 400,
        is_leap_year(4 * f + j) == (j == 0 && !(f == 25 || f == 50 || f == 75)),
        1 <= doy <= (if j == 0 {
            366int
        } else {
            365int
        }),
        (j == 0 && (f == 25 || f == 50 || f == 75)) ==> doy != 60,
        dd == days_before_year(4 * f + j) + (doy - (if (j == 0 && (f == 25 || f == 50 || f == 75))
            && doy >= 61 {
            1int
        } else {
            0int
        })) - 1,
{
    let a = dd + p;
    vstd::arithmetic::div_mod::lemma_fundamental_div_mod(a, 1461);
    vstd::arithmetic::div_mod::lemma_mod_division_less_than_divisor(a, 1461);
    assert(a == 1461 * f + dofyc);
    assert(0 <= f <= 99);

    // Decode within the four-year block: year j of the block, day doy of
    // the year, where year 0 of the block has 366 days.
    if dofyc != 0 {
        vstd::arithmetic::div_mod::lemma_fundamental_div_mod(dofyc - 1, 365);
        vstd::arithmetic::div_mod::lemma_mod_division_less_than_divisor(dofyc - 1, 365);
    }
    assert(0 <= j <= 3);
    assert(1 <= doy <= (if j == 0 {
        366int
    } else {
        365int
    }));
    assert(dofyc == 365 * j + (if j >= 1 {
        1int
    } else {
        0int
    }) + doy - 1);
    let yc = 4 * f + j;

    // yc mod 4 is j, and yc mod 400 is yc itself.
    assert(4 * f <= yc < 4 * (f + 1));
    lemma_div_mod_value(yc, 4, f);
    assert(yc % 4 == j);
    vstd::arithmetic::div_mod::lemma_small_mod(yc as nat, 400nat);

    // The ceiling-style division terms of leap_years_before(yc).
    assert(yc + 3 == 4 * f + (j + 3));
    lemma_div_split(f, j + 3, 4);
    if j == 0 {
        lemma_div_mod_value(j + 3, 4, 0);
    } else {
        lemma_div_mod_value(j + 3, 4, 1);
    }
    assert((yc + 3) / 4 == f + (if j >= 1 {
        1int
    } else {
        0int
    }));
    if yc == 0 {
        lemma_div_mod_value(yc + 399, 400, 0);
    } else {
        lemma_div_mod_value(yc + 399, 400, 1);
    }
    assert((yc + 399) / 400 == (if yc >= 1 {
        1int
    } else {
        0int
    }));

    // Case analysis on the number of skipped century leap days.
    if p == 0 {
        assert(f <= 25);
        if f <= 24 {
            if yc == 0 {
                lemma_div_mod_value(yc + 99, 100, 0);
                vstd::arithmetic::div_mod::lemma_small_mod(yc as nat, 100nat);
            } else {
                lemma_div_mod_value(yc + 99, 100, 1);
                vstd::arithmetic::div_mod::lemma_small_mod(yc as nat, 100nat);
            }
        } else {
            assert(f == 25);
            assert(dofyc == a - 36525 && dofyc <= 58);
            assert(j == 0 && doy <= 59);
            lemma_div_mod_value(yc + 99, 100, 1);
            lemma_div_mod_value(yc, 100, 1);
        }
    } else if p == 1 {
        assert(25 <= f <= 50);
        if f == 25 {
            assert(dofyc == a - 36525 && dofyc >= 60);
            if j == 0 {
                assert(doy >= 61);
                lemma_div_mod_value(yc + 99, 100, 1);
                lemma_div_mod_value(yc, 100, 1);
            } else {
                lemma_div_mod_value(yc + 99, 100, 2);
                lemma_div_mod_value(yc, 100, 1);
            }
        } else if f <= 49 {
            lemma_div_mod_value(yc + 99, 100, 2);
            lemma_div_mod_value(yc, 100, 1);
        } else {
            assert(f == 50);
            assert(dofyc == a - 73050 && dofyc <= 58);
            assert(j == 0 && doy <= 59);
            lemma_div_mod_value(yc + 99, 100, 2);
            lemma_div_mod_value(yc, 100, 2);
        }
    } else if p == 2 {
        assert(50 <= f <= 75);
        if f == 50 {
            assert(dofyc == a - 73050 && dofyc >= 60);
            if j == 0 {
                assert(doy >= 61);
                lemma_div_mod_value(yc + 99, 100, 2);
                lemma_div_mod_value(yc, 100, 2);
            } else {
                lemma_div_mod_value(yc + 99, 100, 3);
                lemma_div_mod_value(yc, 100, 2);
            }
        } else if f <= 74 {
            lemma_div_mod_value(yc + 99, 100, 3);
            lemma_div_mod_value(yc, 100, 2);
        } else {
            assert(f == 75);
            assert(dofyc == a - 109575 && dofyc <= 58);
            assert(j == 0 && doy <= 59);
            lemma_div_mod_value(yc + 99, 100, 3);
            lemma_div_mod_value(yc, 100, 3);
        }
    } else {
        assert(p == 3);
        assert(75 <= f <= 99);
        if f == 75 {
            assert(dofyc == a - 109575 && dofyc >= 60);
            if j == 0 {
                assert(doy >= 61);
                lemma_div_mod_value(yc + 99, 100, 3);
                lemma_div_mod_value(yc, 100, 3);
            } else {
                lemma_div_mod_value(yc + 99, 100, 4);
                lemma_div_mod_value(yc, 100, 3);
            }
        } else {
            lemma_div_mod_value(yc + 99, 100, 4);
            lemma_div_mod_value(yc, 100, 3);
        }
    }
}

} // verus!
