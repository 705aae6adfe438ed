use vstd::prelude::*;

use crate::date::Date;
use crate::day_count::{days_in_month_num, is_leap_year};
use crate::error::{DateParseError, InvalidDate, InvalidDateSyntax, InvalidMonthNumber};
use crate::month::{month_number, month_of_number, Month};
use crate::year::Year;
use crate::year_month::YearMonth;
use vstd::string::StrSliceExecFns;
use vstd::string::StringExecFns;

verus! {

// ---------------------------------------------------------------------------
// Decimal digits as characters.
// ---------------------------------------------------------------------------
/// Whether a character is a decimal digit.
pub open spec fn is_digit(c: char) -> bool {
    '0' <= c && c <= '9'
}

/// The numeric value of a decimal digit character.
pub open spec fn digit_val(c: char) -> int {
    c as int - 48
}

/// The character for a decimal digit value 0-9.
pub open spec fn digit_char(v: int) -> char {
    if v == 0 {
        '0'
    } else if v == 1 {
        '1'
    } else if v == 2 {
        '2'
    } else if v == 3 {
        '3'
    } else if v == 4 {
        '4'
    } else if v == 5 {
        '5'
    } else if v == 6 {
        '6'
    } else if v == 7 {
        '7'
    } else if v == 8 {
        '8'
    } else {
        '9'
    }
}

/// Whether every character of a sequence is a decimal digit.
pub open spec fn all_digits(s: Seq<char>) -> bool {
    forall|i: int| 0 <= i < s.len() ==> is_digit(#[trigger] s[i])
}

/// The number denoted by a sequence of decimal digits, most significant
/// digit first.
pub open spec fn digits_val(s: Seq<char>) -> int
    decreases s.len(),
{
    if s.len() == 0 {
        0
    } else {
        digits_val(s.drop_last()) * 10 + digit_val(s.last())
    }
}

// ---------------------------------------------------------------------------
// The canonical text forms.
// ---------------------------------------------------------------------------
/// The decimal digits of a non-negative number, without leading zeros.
pub open spec fn dec_digits(n: int) -> Seq<char>
    recommends
        n >= 0,
    decreases n,
{
    if n < 10 {
        seq![digit_char(n)]
    } else {
        dec_digits(n / 10).push(digit_char(n % 10))
    }
}

/// A run of `k` zero characters (empty for `k <= 0`).
pub open spec fn zeros(k: int) -> Seq<char>
    decreases k,
{
    if k <= 0 {
        Seq::empty()
    } else {
        zeros(k - 1).push('0')
    }
}

/// A non-negative number in decimal, left-padded with zeros to at least
/// `w` characters.
pub open spec fn dec_padded(n: int, w: int) -> Seq<char> {
    zeros(w - dec_digits(n).len()) + dec_digits(n)
}

/// The canonical text form of a year: at least four characters, zero
/// padded, with a leading minus sign for negative years.
pub open spec fn year_chars(y: int) -> Seq<char> {
    if y < 0 {
        seq!['-'] + dec_padded(-y, 3)
    } else {
        dec_padded(y, 4)
    }
}

/// The canonical `YYYY-MM` text form of a year and month number.
pub open spec fn year_month_chars(y: int, mn: int) -> Seq<char> {
    year_chars(y) + seq!['-'] + dec_padded(mn, 2)
}

/// The canonical `YYYY-MM-DD` text form of a date.
pub open spec fn date_chars(y: int, mn: int, dom: int) -> Seq<char> {
    year_month_chars(y, mn) + seq!['-'] + dec_padded(dom, 2)
}

// ---------------------------------------------------------------------------
// Formatting.
// ---------------------------------------------------------------------------
/// The one-character string for a decimal digit value.
fn digit_str(d: u8) -> (r: &'static str)
    requires
        d < 10,
    ensures
        r@ == seq![digit_char(d as int)],
{
    if d == 0 {
        proof {
            reveal_strlit("0");
            assert("0"@ =~= seq![digit_char(0)]);
        }
        "0"
    } else if d == 1 {
        proof {
            reveal_strlit("1");
            assert("1"@ =~= seq![digit_char(1)]);
        }
        "1"
    } else if d == 2 {
        proof {
            reveal_strlit("2");
            assert("2"@ =~= seq![digit_char(2)]);
        }
        "2"
    } else if d == 3 {
        proof {
            reveal_strlit("3");
            assert("3"@ =~= seq![digit_char(3)]);
        }
        "3"
    } else if d == 4 {
        proof {
            reveal_strlit("4");
            assert("4"@ =~= seq![digit_char(4)]);
        }
        "4"
    } else if d == 5 {
        proof {
            reveal_strlit("5");
            assert("5"@ =~= seq![digit_char(5)]);
        }
        "5"
    } else if d == 6 {
        proof {
            reveal_strlit("6");
            assert("6"@ =~= seq![digit_char(6)]);
        }
        "6"
    } else if d == 7 {
        proof {
            reveal_strlit("7");
            assert("7"@ =~= seq![digit_char(7)]);
        }
        "7"
    } else if d == 8 {
        proof {
            reveal_strlit("8");
            assert("8"@ =~= seq![digit_char(8)]);
        }
        "8"
    } else {
        proof {
            reveal_strlit("9");
            assert("9"@ =~= seq![digit_char(9)]);
        }
        "9"
    }
}

/// Format a number as decimal digits, without leading zeros.
fn format_u32(n: u32) -> (r: String)
    ensures
        r@ == dec_digits(n as int),
    decreases n,
{
    if n < 10 {
        let s = String::from_str(digit_str(n as u8));
        s
    } else {
        proof {
            vstd::arithmetic::div_mod::lemma_fundamental_div_mod(n as int, 10);
            vstd::arithmetic::div_mod::lemma_mod_division_less_than_divisor(n as int, 10);
        }
        let mut s = format_u32(n / 10);
        s.append(digit_str((n % 10) as u8));
        proof {
            assert(s@ =~= dec_digits(n as int));
        }
        s
    }
}

/// Left-pad a string with zero characters to at least `width` characters.
fn pad_left(s: String, width: usize) -> (r: String)
    ensures
        r@ == zeros(width - s@.len()) + s@,
{
    let n = s.as_str().unicode_len();
    let mut z = String::new();
    let mut i: usize = n;
    while i < width
        invariant
            n <= i,
            i <= width || i == n,
            n == s@.len(),
            z@ == zeros(i - n),
        decreases width - i,
    {
        proof {
            reveal_strlit("0");
            assert(z@ + "0"@ =~= zeros(i + 1 - n));
        }
        z.append("0");
        i = i + 1;
    }
    proof {
        if width <= n {
            assert(z@ =~= zeros(width - s@.len()));
        }
    }
    z.concat(s.as_str())
}

impl Year {
    /// The canonical text form of the year: at least four characters, zero
    /// padded, with a leading minus sign for negative years.
    pub fn format(self) -> (r: String)
        ensures
            r@ == year_chars(self.number as int),
    {
        if self.number < 0 {
            let magnitude: u32 = (-(self.number as i32)) as u32;
            let digits = pad_left(format_u32(magnitude), 3);
            let mut s = String::from_str("-");
            s.append(digits.as_str());
            proof {
                reveal_strlit("-");
                assert(s@ =~= year_chars(self.number as int));
            }
            s
        } else {
            pad_left(format_u32(self.number as u32), 4)
        }
    }
}

impl YearMonth {
    /// The canonical `YYYY-MM` text form of the year-month.
    pub fn format(self) -> (r: String)
        ensures
            r@ == year_month_chars(self.year.number as int, month_number(self.month)),
    {
        let mut s = self.year.format();
        s.append("-");
        let month = pad_left(format_u32(self.month.to_number() as u32), 2);
        s.append(month.as_str());
        proof {
            reveal_strlit("-");
            assert(s@ =~= year_month_chars(self.year.number as int, month_number(self.month)));
        }
        s
    }
}

// ---------------------------------------------------------------------------
// Parsing.
// ---------------------------------------------------------------------------
/// Where the first `-` at or after `from` stands in `s`, or `s.len()` when
/// there is none.
pub open spec fn find_dash(s: Seq<char>, from: int) -> int
    decreases s.len() - from,
{
    if from < 0 || from >= s.len() {
        s.len() as int
    } else if s[from] == '-' {
        from
    } else {
        find_dash(s, from + 1)
    }
}

/// Whether a field is a non-empty run of digits denoting a value of at
/// most `cap`.
pub open spec fn field_ok(f: Seq<char>, cap: int) -> bool {
    f.len() > 0 && all_digits(f) && digits_val(f) <= cap
}

/// Whether a year field is well-formed: digits with an optional leading
/// minus sign, denoting a year that fits in `i16`.
pub open spec fn year_field_ok(f: Seq<char>) -> bool {
    if f.len() > 0 && f[0] == '-' {
        field_ok(f.subrange(1, f.len() as int), 0x8000)
    } else {
        field_ok(f, 0x7fff)
    }
}

/// The year denoted by a well-formed year field.
pub open spec fn year_field_val(f: Seq<char>) -> int {
    if f.len() > 0 && f[0] == '-' {
        -digits_val(f.subrange(1, f.len() as int))
    } else {
        digits_val(f)
    }
}

/// What parsing a date string yields.
///
/// The string is split at the first two `-` characters (skipping a leading
/// minus sign, which belongs to the year) into exactly three numeric
/// fields; anything else is a syntax error.  A well-formed triple that
/// does not name a calendar day yields an invalid-date error.
pub open spec fn spec_parse(s: Seq<char>) -> Result<Date, DateParseError> {
    let start: int = if s.len() > 0 && s[0] == '-' {
        1
    } else {
        0
    };
    let i = find_dash(s, start);
    let j = find_dash(s, i + 1);
    if i >= s.len() || j >= s.len() {
        Err(DateParseError::InvalidDateSyntax(InvalidDateSyntax {  }))
    } else {
        let yf = s.subrange(0, i);
        let mf = s.subrange(i + 1, j);
        let df = s.subrange(j + 1, s.len() as int);
        if !year_field_ok(yf) || !field_ok(mf, 255) || !field_ok(df, 255) {
            Err(DateParseError::InvalidDateSyntax(InvalidDateSyntax {  }))
        } else {
            let y = year_field_val(yf);
            let m = digits_val(mf);
            let d = digits_val(df);
            if !(1 <= m <= 12) {
                Err(
                    DateParseError::InvalidDate(
                        InvalidDate::InvalidMonthNumber(InvalidMonthNumber { number: m as u8 }),
                    ),
                )
            } else if !(1 <= d <= days_in_month_num(m, is_leap_year(y))) {
                Err(
                    DateParseError::InvalidDate(
                        InvalidDate::InvalidDayOfMonth(
                            crate::error::InvalidDayOfMonth {
                                year: Year { number: y as i16 },
                                month: month_of_number(m),
                                day: d as u8,
                            },
                        ),
                    ),
                )
            } else {
                Ok(Date { year: Year { number: y as i16 }, month: month_of_number(m), day: d as u8 })
            }
        }
    }
}

/// Every digit run denotes a non-negative number.
proof fn lemma_digits_val_nonneg(s: Seq<char>, lo: int, hi: int)
    requires
        0 <= lo <= hi <= s.len(),
        forall|t: int| lo <= t < hi ==> is_digit(#[trigger] s[t]),
    ensures
        digits_val(s.subrange(lo, hi)) >= 0,
    decreases hi - lo,
{
    if hi > lo {
        lemma_digits_val_nonneg(s, lo, hi - 1);
        let b = s.subrange(lo, hi);
        assert(b.drop_last() =~= s.subrange(lo, hi - 1));
        assert(b.last() == s[hi - 1]);
    }
}

/// Extending a digit run to the right cannot shrink its value.
proof fn lemma_digits_val_monotone(s: Seq<char>, lo: int, mid: int, hi: int)
    requires
        0 <= lo <= mid <= hi <= s.len(),
        forall|t: int| lo <= t < hi ==> is_digit(#[trigger] s[t]),
    ensures
        digits_val(s.subrange(lo, mid)) <= digits_val(s.subrange(lo, hi)),
    decreases hi - mid,
{
    if mid < hi {
        lemma_digits_val_monotone(s, lo, mid, hi - 1);
        lemma_digits_val_nonneg(s, lo, hi - 1);
        let b = s.subrange(lo, hi);
        assert(b.drop_last() =~= s.subrange(lo, hi - 1));
        assert(b.last() == s[hi - 1]);
    }
}

/// A range of digit characters makes a digit-run subrange.
proof fn lemma_all_digits_range(s: Seq<char>, lo: int, hi: int)
    requires
        0 <= lo <= hi <= s.len(),
        forall|t: int| lo <= t < hi ==> is_digit(#[trigger] s[t]),
    ensures
        all_digits(s.subrange(lo, hi)),
{
    let sub = s.subrange(lo, hi);
    assert forall|ii: int| 0 <= ii < sub.len() implies is_digit(#[trigger] sub[ii]) by {
        assert(sub[ii] == s[lo + ii]);
    }
}

/// The numeric value of a digit character, or `None` for any other
/// character.
fn digit_of(c: char) -> (r: Option<u8>)
    ensures
        r is Some <==> is_digit(c),
        r is Some ==> r->0 == digit_val(c) && r->0 < 10,
{
    let v = c as u32;
    if 48 <= v && v <= 57 {
        Some((v - 48) as u8)
    } else {
        None
    }
}

/// Find the first `-` at or after `from`, or the length of the string.
fn find_dash_exec(s: &str, from: usize) -> (r: usize)
    requires
        from <= s@.len(),
    ensures
        r == find_dash(s@, from as int),
        from <= r <= s@.len(),
{
    let n = s.unicode_len();
    let mut k = from;
    while k < n
        invariant
            from <= k <= n,
            n == s@.len(),
            find_dash(s@, from as int) == find_dash(s@, k as int),
        decreases n - k,
    {
        let c = s.get_char(k);
        if c == '-' {
            return k;
        }
        k = k + 1;
    }
    n
}

/// Read the digits of `s` between `lo` and `hi` as a number of at most
/// `cap`; `None` when the range is empty, holds a non-digit, or denotes a
/// larger number.
fn parse_field(s: &str, lo: usize, hi: usize, cap: u32) -> (r: Option<u32>)
    requires
        lo <= hi <= s@.len(),
        cap <= 0xffff,
    ensures
        r is Some <==> field_ok(s@.subrange(lo as int, hi as int), cap as int),
        r is Some ==> r->0 == digits_val(s@.subrange(lo as int, hi as int)),
{
    if lo >= hi {
        return None;
    }
    let mut val: u32 = 0;
    let mut k = lo;
    while k < hi
        invariant
            lo <= k <= hi,
            hi <= s@.len(),
            cap <= 0xffff,
            val <= cap,
            forall|t: int| lo <= t < k ==> is_digit(#[trigger] s@[t]),
            val == digits_val(s@.subrange(lo as int, k as int)),
        decreases hi - k,
    {
        let c = s.get_char(k);
        let d = match digit_of(c) {
            Some(d) => d,
            None => {
                proof {
                    let full = s@.subrange(lo as int, hi as int);
                    assert(full[k - lo] == s@[k as int]);
                }
                return None;
            },
        };
        val = val * 10 + d as u32;
        proof {
            let prefix = s@.subrange(lo as int, k as int);
            let prefix1 = s@.subrange(lo as int, k as int + 1);
            assert(prefix1.drop_last() =~= prefix);
            assert(prefix1.last() == s@[k as int]);
        }
        if val > cap {
            proof {
                let full = s@.subrange(lo as int, hi as int);
                if all_digits(full) {
                    assert forall|t: int| lo <= t < hi as int implies is_digit(
                        #[trigger] s@[t],
                    ) by {
                        assert(full[t - lo] == s@[t]);
                    }
                    lemma_digits_val_monotone(s@, lo as int, k as int + 1, hi as int);
                }
            }
            return None;
        }
        k = k + 1;
    }
    proof {
        lemma_all_digits_range(s@, lo as int, hi as int);
    }
    Some(val)
}

impl Date {
    /// Parse a date from its canonical `YYYY-MM-DD` text form.
    ///
    /// The fields may have any width, and the year may carry a leading
    /// minus sign; the values must fit the calendar.
    pub fn parse(s: &str) -> (r: Result<Date, DateParseError>)
        ensures
            r == spec_parse(s@),
    {
        let n = s.unicode_len();
        let start: usize = if n > 0 && s.get_char(0) == '-' {
            1
        } else {
            0
        };
        let i = find_dash_exec(s, start);
        if i >= n {
            return Err(DateParseError::InvalidDateSyntax(InvalidDateSyntax {  }));
        }
        let j = find_dash_exec(s, i + 1);
        if j >= n {
            return Err(DateParseError::InvalidDateSyntax(InvalidDateSyntax {  }));
        }
        let y: i16;
        if start == 1 {
            let yv = match parse_field(s, 1, i, 0x8000) {
                Some(v) => v,
                None => {
                    proof {
                        lemma_year_field_negative(s@, i as int);
                    }
                    return Err(DateParseError::InvalidDateSyntax(InvalidDateSyntax {  }));
                },
            };
            proof {
                lemma_year_field_negative(s@, i as int);
            }
            y = (-(yv as i32)) as i16;
        } else {
            let yv = match parse_field(s, 0, i, 0x7fff) {
                Some(v) => v,
                None => {
                    return Err(DateParseError::InvalidDateSyntax(InvalidDateSyntax {  }));
                },
            };
            y = yv as i16;
        }
        let mv = match parse_field(s, i + 1, j, 255) {
            Some(v) => v,
            None => {
                return Err(DateParseError::InvalidDateSyntax(InvalidDateSyntax {  }));
            },
        };
        let dv = match parse_field(s, j + 1, n, 255) {
            Some(v) => v,
            None => {
                return Err(DateParseError::InvalidDateSyntax(InvalidDateSyntax {  }));
            },
        };
        let month = match Month::new(mv as u8) {
            Ok(m) => m,
            Err(e) => {
                return Err(
                    DateParseError::InvalidDate(InvalidDate::InvalidMonthNumber(e)),
                );
            },
        };
        match YearMonth::new(y, month).with_day(dv as u8) {
            Ok(date) => Ok(date),
            Err(e) => Err(DateParseError::InvalidDate(InvalidDate::InvalidDayOfMonth(e))),
        }
    }
}

/// The digit character of a value 0-9 is a digit denoting that value.
proof fn lemma_digit_char_val(v: int)
    requires
        0 <= v <= 9,
    ensures
        is_digit(digit_char(v)),
        digit_val(digit_char(v)) == v,
{
    assert('0' as int == 48);
    assert('1' as int == 49);
    assert('2' as int == 50);
    assert('3' as int == 51);
    assert('4' as int == 52);
    assert('5' as int == 53);
    assert('6' as int == 54);
    assert('7' as int == 55);
    assert('8' as int == 56);
    assert('9' as int == 57);
}

/// The decimal digits of a non-negative number are digits and denote the
/// number itself.
proof fn lemma_dec_digits(n: int)
    requires
        n >= 0,
    ensures
        all_digits(dec_digits(n)),
        digits_val(dec_digits(n)) == n,
        dec_digits(n).len() >= 1,
    decreases n,
{
    if n < 10 {
        lemma_digit_char_val(n);
        let s = dec_digits(n);
        assert(s.drop_last() =~= Seq::<char>::empty());
        assert(s.last() == digit_char(n));
        assert(digits_val(s) == digits_val(s.drop_last()) * 10 + digit_val(s.last()));
    } else {
        vstd::arithmetic::div_mod::lemma_fundamental_div_mod(n, 10);
        vstd::arithmetic::div_mod::lemma_mod_division_less_than_divisor(n, 10);
        lemma_dec_digits(n / 10);
        lemma_digit_char_val(n % 10);
        let s = dec_digits(n);
        assert(s.drop_last() =~= dec_digits(n / 10));
        assert(s.last() == digit_char(n % 10));
    }
}

/// A run of zero characters is a digit run denoting zero.
proof fn lemma_zeros_digits(k: int)
    ensures
        all_digits(zeros(k)),
        digits_val(zeros(k)) == 0,
        zeros(k).len() == (if k >= 0 {
            k
        } else {
            0
        }),
    decreases k,
{
    if k > 0 {
        lemma_zeros_digits(k - 1);
        let s = zeros(k);
        assert(s.drop_last() =~= zeros(k - 1));
        assert(s.last() == '0');
    }
}

/// Zeros in front of a digit run do not change the number it denotes.
proof fn lemma_digits_val_prepend_zeros(k: int, s: Seq<char>)
    ensures
        digits_val(zeros(k) + s) == digits_val(s),
        all_digits(s) ==> all_digits(zeros(k) + s),
    decreases s.len(),
{
    lemma_zeros_digits(k);
    if s.len() == 0 {
        assert(zeros(k) + s =~= zeros(k));
    } else {
        lemma_digits_val_prepend_zeros(k, s.drop_last());
        let w = zeros(k) + s;
        assert(w.drop_last() =~= zeros(k) + s.drop_last());
        assert(w.last() == s.last());
    }
}

/// A zero-padded number is a digit run denoting the number itself.
proof fn lemma_dec_padded(n: int, w: int)
    requires
        n >= 0,
    ensures
        all_digits(dec_padded(n, w)),
        digits_val(dec_padded(n, w)) == n,
        dec_padded(n, w).len() >= 1,
{
    lemma_dec_digits(n);
    lemma_digits_val_prepend_zeros(w - dec_digits(n).len(), dec_digits(n));
}

/// The first dash after a run of non-dash characters is found where it
/// stands.
proof fn lemma_find_dash_at(s: Seq<char>, from: int, t: int)
    requires
        0 <= from <= t < s.len(),
        forall|x: int| from <= x < t ==> s[x] != '-',
        s[t] == '-',
    ensures
        find_dash(s, from) == t,
    decreases t - from,
{
    if from < t {
        lemma_find_dash_at(s, from + 1, t)
    }
}

/// Parsing the canonical text form of a valid date gives the date back.
///
/// Formatting never loses information: for every valid date, the result
/// of [`Date::parse`] on the result of [`Date::format`] is `Ok` with the
/// original date.
#[verifier::rlimit(100)]
#[verifier::spinoff_prover]
pub proof fn lemma_parse_format_roundtrip(date: Date)
    requires
        date.valid(),
    ensures
        spec_parse(
            date_chars(date.year.number as int, month_number(date.month), date.day as int),
        ) == Ok::<Date, DateParseError>(date),
{
    let y = date.year.number as int;
    let mn = month_number(date.month);
    let d = date.day as int;
    let a = year_chars(y);
    let b = dec_padded(mn, 2);
    let c = dec_padded(d, 2);
    let s = date_chars(y, mn, d);
    assert(s =~= a + seq!['-'] + b + seq!['-'] + c);
    let la = a.len() as int;
    let lb = b.len() as int;
    let lc = c.len() as int;
    crate::month::lemma_month_number_of_number(date.month);
    lemma_dec_padded(mn, 2);
    lemma_dec_padded(d, 2);
    if y < 0 {
        lemma_dec_padded(-y, 3);
        assert(a =~= seq!['-'] + dec_padded(-y, 3));
        assert(a.subrange(1, la) =~= dec_padded(-y, 3));
        assert(forall|x: int|
            1 <= x < la ==> is_digit(#[trigger] a[x]) && a[x] != '-') by {
            assert(forall|x: int|
                1 <= x < la ==> a[x] == dec_padded(-y, 3)[x - 1] && is_digit(
                    #[trigger] dec_padded(-y, 3)[x - 1],
                ));
        }
        assert(s[0] == '-');
        lemma_find_dash_at(s, 1, la);
    } else {
        assert(a =~= dec_padded(y, 4));
        lemma_dec_padded(y, 4);
        assert(forall|x: int| 0 <= x < la ==> is_digit(#[trigger] a[x]));
        assert(s[0] == a[0] && is_digit(a[0]) && a[0] != '-');
        lemma_find_dash_at(s, 0, la);
    }
    assert(find_dash(s, (if y < 0 {
        1int
    } else {
        0int
    })) == la);
    assert(forall|x: int| la + 1 <= x < la + 1 + lb ==> s[x] == b[x - la - 1]);
    assert(forall|x: int| la + 1 <= x < la + 1 + lb ==> is_digit(#[trigger] s[x]) && s[x]
        != '-');
    assert(s[la + 1 + lb] == '-');
    lemma_find_dash_at(s, la + 1, la + 1 + lb);
    let i = find_dash(s, (if y < 0 {
        1int
    } else {
        0int
    }));
    let j = find_dash(s, i + 1);
    assert(i == la && j == la + 1 + lb);
    assert(i < s.len() && j < s.len());
    let yf = s.subrange(0, i);
    let mf = s.subrange(i + 1, j);
    let df = s.subrange(j + 1, s.len() as int);
    assert(yf =~= a);
    assert(mf =~= b);
    assert(df =~= c);
    if y < 0 {
        assert(yf.subrange(1, yf.len() as int) =~= dec_padded(-y, 3));
        assert(year_field_ok(yf));
        assert(year_field_val(yf) == y);
    } else {
        assert(forall|x: int| 0 <= x < la ==> yf[x] == a[x]);
        assert(yf[0] != '-');
        assert(year_field_ok(yf));
        assert(year_field_val(yf) == y);
    }
    assert(field_ok(mf, 255) && digits_val(mf) == mn);
    assert(field_ok(df, 255) && digits_val(df) == d);
    assert(spec_parse(s) == Ok::<Date, DateParseError>(date));
}

impl core::str::FromStr for Date {
    type Err = DateParseError;

    fn from_str(s: &str) -> Result<Self, Self::Err> {
        Date::parse(s)
    }
}

/// When the string opens with a minus sign, the year field is that sign
/// followed by the characters up to the first separator.
proof fn lemma_year_field_negative(s: Seq<char>, i: int)
    requires
        s.len() > 0,
        s[0] == '-',
        1 <= i <= s.len(),
    ensures
        s.subrange(0, i).len() == i,
        s.subrange(0, i)[0] == '-',
        s.subrange(0, i).subrange(1, i) =~= s.subrange(1, i),
{
}

impl Date {
    /// The canonical `YYYY-MM-DD` text form of the date.
    pub fn format(self) -> (r: String)
        ensures
            r@ == date_chars(
                self.year.number as int,
                month_number(self.month),
                self.day as int,
            ),
    {
        let mut s = self.year_month().format();
        s.append("-");
        let day = pad_left(format_u32(self.day as u32), 2);
        s.append(day.as_str());
        proof {
            reveal_strlit("-");
            assert(s@ =~= date_chars(
                self.year.number as int,
                month_number(self.month),
                self.day as int,
            ));
        }
        s
    }
}

} // verus!
