use gregorian::{
    modulo_i16, Date, DateParseError, DateResultExt, InvalidDate, InvalidMonthNumber, Month, Year,
    YearMonth,
};
use gregorian::Month::{
    April, August, December, February, January, July, June, March, May, November, October,
    September,
};

const DAYS_IN_400_YEAR: i32 = 400 * 365 + 97;
const UNIX_EPOCH: i32 = DAYS_IN_400_YEAR * 4 + 370 * 365 + 90;

fn date(year: i16, month: u8, day: u8) -> Date {
    Date::new(year, month, day).unwrap()
}

#[test]
fn new() {
    assert!(matches!(Date::new(2020, 1, 2), Ok(_)));
    assert!(Date::new(2020, 1, 2).unwrap().year().to_number() == 2020);
    assert!(Date::new(2020, 1, 2).unwrap().month().to_number() == 1);
    assert!(Date::new(2020, 1, 2).unwrap().day() == 2);

    assert!(matches!(Date::new(2020, 2, 29), Ok(_)));
    assert!(matches!(Date::new(2020, 2, 30), Err(_)));
    assert!(matches!(Date::new(2019, 2, 28), Ok(_)));
    assert!(matches!(Date::new(2019, 2, 29), Err(_)));
}

#[test]
fn today() {
    // Got nothing to check it against really, but lets see at least that it
    // does not panic, and that it's at least 2021.
    assert!(Date::today_utc().year().to_number() >= 2021);
}

#[test]
fn next() {
    assert!(date(2020, 1, 2).next() == date(2020, 1, 3));
    assert!(date(2020, 1, 31).next() == date(2020, 2, 1));
    assert!(date(2020, 12, 31).next() == date(2021, 1, 1));
}

#[test]
fn day_of_year() {
    assert!(date(2019, 1, 1).day_of_year() == 1);
    assert!(date(2019, 2, 1).day_of_year() == 32);
    assert!(date(2019, 3, 1).day_of_year() == 60);
    assert!(date(2019, 4, 1).day_of_year() == 91);
    assert!(date(2019, 5, 1).day_of_year() == 121);
    assert!(date(2019, 6, 1).day_of_year() == 152);
    assert!(date(2019, 7, 1).day_of_year() == 182);
    assert!(date(2019, 8, 1).day_of_year() == 213);
    assert!(date(2019, 9, 1).day_of_year() == 244);
    assert!(date(2019, 10, 1).day_of_year() == 274);
    assert!(date(2019, 11, 1).day_of_year() == 305);
    assert!(date(2019, 12, 1).day_of_year() == 335);

    assert!(date(2020, 1, 1).day_of_year() == 1);
    assert!(date(2020, 2, 1).day_of_year() == 32);
    assert!(date(2020, 3, 1).day_of_year() == 61);
    assert!(date(2020, 4, 1).day_of_year() == 92);
    assert!(date(2020, 5, 1).day_of_year() == 122);
    assert!(date(2020, 6, 1).day_of_year() == 153);
    assert!(date(2020, 7, 1).day_of_year() == 183);
    assert!(date(2020, 8, 1).day_of_year() == 214);
    assert!(date(2020, 9, 1).day_of_year() == 245);
    assert!(date(2020, 10, 1).day_of_year() == 275);
    assert!(date(2020, 11, 1).day_of_year() == 306);
    assert!(date(2020, 12, 1).day_of_year() == 336);

    assert!(date(2019, 1, 2).day_of_year() == 2);
    assert!(date(2019, 1, 31).day_of_year() == 31);
    assert!(date(2019, 2, 2).day_of_year() == 33);
    assert!(date(2019, 2, 28).day_of_year() == 59);
    assert!(date(2019, 12, 31).day_of_year() == 365);

    assert!(date(2020, 12, 31).day_of_year() == 366);

    let mut d = date(2020, 1, 1);
    for i in 1..=366 {
        assert!(d.day_of_year() == i);
        d = d.next();
    }

    let mut d = date(2021, 1, 1);
    for i in 1..=365 {
        assert!(d.day_of_year() == i);
        d = d.next();
    }
}

#[test]
fn days_since_year_zero() {
    assert!(date(0, 1, 1).days_since_year_zero() == 0);
    assert!(date(400, 1, 1).days_since_year_zero() == 1 * (400 * 365 + 97));
    assert!(date(800, 1, 1).days_since_year_zero() == 2 * (400 * 365 + 97));
    assert!(date(-400, 1, 1).days_since_year_zero() == -1 * (400 * 365 + 97));
    assert!(date(-800, 1, 1).days_since_year_zero() == -2 * (400 * 365 + 97));

    assert!(date(1, 1, 1).days_since_year_zero() == 366);
    assert!(date(0, 12, 31).days_since_year_zero() == 365);
    assert!(date(399, 12, 31).days_since_year_zero() == 400 * 365 + 97 - 1);
    assert!(date(-1, 12, 31).days_since_year_zero() == -1);

    assert!(date(396, 1, 1).days_since_year_zero() == 396 * 365 + 96);

    assert!(date(-2, 1, 1).days_since_year_zero() == -2 * 365);
    assert!(date(-3, 1, 1).days_since_year_zero() == -3 * 365);
    assert!(date(-4, 1, 1).days_since_year_zero() == -4 * 365 - 1);
    assert!(date(-100, 1, 1).days_since_year_zero() == -100 * 365 - 24);
    assert!(date(-400, 1, 1).days_since_year_zero() == -400 * 365 - 97);

    let mut d = date(0, 1, 1);
    for i in 0..=10 * DAYS_IN_400_YEAR {
        assert!(d.days_since_year_zero() == i);
        d = d.next();
    }

    let mut d = date(0, 1, 1);
    for i in (-10 * DAYS_IN_400_YEAR..=0).rev() {
        assert!(d.days_since_year_zero() == i);
        d = d.prev();
    }
}

#[test]
fn from_days_since_year_zero() {
    assert!(Date::from_days_since_year_zero(0) == date(0, 1, 1));
    assert!(Date::from_days_since_year_zero(1 * (400 * 365 + 97)) == date(400, 1, 1));
    assert!(Date::from_days_since_year_zero(2 * (400 * 365 + 97)) == date(800, 1, 1));
    assert!(Date::from_days_since_year_zero(-1 * (400 * 365 + 97)) == date(-400, 1, 1));
    assert!(Date::from_days_since_year_zero(-2 * (400 * 365 + 97)) == date(-800, 1, 1));

    assert!(Date::from_days_since_year_zero(366) == date(1, 1, 1));
    assert!(Date::from_days_since_year_zero(365) == date(0, 12, 31));
    assert!(Date::from_days_since_year_zero(400 * 365 + 97 - 1) == date(399, 12, 31));
    assert!(Date::from_days_since_year_zero(-1) == date(-1, 12, 31));

    assert!(Date::from_days_since_year_zero(396 * 365 + 96) == date(396, 1, 1));

    assert!(Date::from_days_since_year_zero(-2 * 365) == date(-2, 1, 1));
    assert!(Date::from_days_since_year_zero(-3 * 365) == date(-3, 1, 1));
    assert!(Date::from_days_since_year_zero(-4 * 365 - 1) == date(-4, 1, 1));
    assert!(Date::from_days_since_year_zero(366) == date(1, 1, 1));
    assert!(Date::from_days_since_year_zero(100 * 365 + 25 + 31 + 27) == date(100, 2, 28));
    assert!(Date::from_days_since_year_zero(100 * 365 + 25 + 31 + 28) == date(100, 3, 1));
    assert!(Date::from_days_since_year_zero(100 * 365 + 25 + 31 + 29) == date(100, 3, 2));
    assert!(Date::from_days_since_year_zero(100 * 365 + 25 + 31 + 30) == date(100, 3, 3));
    assert!(Date::from_days_since_year_zero(101 * 365 + 25) == date(101, 1, 1));
    assert!(Date::from_days_since_year_zero(100 * 365 + 25 + 31 + 28) == date(100, 3, 1));
    assert!(Date::from_days_since_year_zero(200 * 365 + 49) == date(200, 1, 1));
    assert!(Date::from_days_since_year_zero(300 * 365 + 73) == date(300, 1, 1));
    assert!(Date::from_days_since_year_zero(-100 * 365 - 24) == date(-100, 1, 1));
    assert!(Date::from_days_since_year_zero(-400 * 365 - 97) == date(-400, 1, 1));

    assert!(Date::from_days_since_year_zero(370 * 365 + 90) == date(370, 1, 1));
    assert!(Date::from_days_since_year_zero(770 * 365 + 97 + 90) == date(770, 1, 1));
    assert!(Date::from_days_since_year_zero(UNIX_EPOCH) == date(1970, 1, 1));

    let mut d = date(0, 1, 1);
    for i in 0..=10 * DAYS_IN_400_YEAR {
        assert!(Date::from_days_since_year_zero(i) == d);
        d = d.next();
    }

    let mut d = date(0, 1, 1);
    for i in (-10 * DAYS_IN_400_YEAR..=0).rev() {
        assert!(Date::from_days_since_year_zero(i) == d);
        d = d.prev();
    }
}

#[test]
fn add_days() {
    assert!(date(2020, 1, 1).add_days(1) == date(2020, 1, 2));
    assert!(date(2020, 1, 1).add_days(31) == date(2020, 2, 1));
    assert!(date(2020, 1, 1).add_days(366) == date(2021, 1, 1));
    assert!(date(2020, 1, 1).add_days(366 + 365) == date(2022, 1, 1));

    assert!(date(2000, 1, 1).add_days(100 * 365 + 24) == date(2099, 12, 31));
    assert!(date(2000, 1, 1).add_days(100 * 365 + 25) == date(2100, 1, 1));
    assert!(date(2000, 1, 1).add_days(100 * 365 + 26) == date(2100, 1, 2));
    assert!(date(2000, 1, 1).add_days(100 * 365 + 25 + 58) == date(2100, 2, 28));
    assert!(date(2000, 1, 1).add_days(100 * 365 + 25 + 59) == date(2100, 3, 1));

    assert!(date(2000, 1, 1).add_days(200 * 365 + 48) == date(2199, 12, 31));
    assert!(date(2000, 1, 1).add_days(200 * 365 + 49) == date(2200, 1, 1));
    assert!(date(2000, 1, 1).add_days(200 * 365 + 50) == date(2200, 1, 2));
    assert!(date(2000, 1, 1).add_days(200 * 365 + 49 + 58) == date(2200, 2, 28));
    assert!(date(2000, 1, 1).add_days(200 * 365 + 49 + 59) == date(2200, 3, 1));

    assert!(date(2000, 1, 1).add_days(300 * 365 + 73) == date(2300, 1, 1));
    assert!(date(2000, 1, 1).add_days(300 * 365 + 72) == date(2299, 12, 31));
    assert!(date(2000, 1, 1).add_days(300 * 365 + 74) == date(2300, 1, 2));
    assert!(date(2000, 1, 1).add_days(300 * 365 + 73 + 58) == date(2300, 2, 28));
    assert!(date(2000, 1, 1).add_days(300 * 365 + 73 + 59) == date(2300, 3, 1));

    assert!(date(2000, 1, 1).add_days(400 * 365 + 96) == date(2399, 12, 31));
    assert!(date(2000, 1, 1).add_days(400 * 365 + 97) == date(2400, 1, 1));
    assert!(date(2000, 1, 1).add_days(400 * 365 + 98) == date(2400, 1, 2));
    assert!(date(2000, 1, 1).add_days(400 * 365 + 97 + 58) == date(2400, 2, 28));
    assert!(date(2000, 1, 1).add_days(400 * 365 + 97 + 59) == date(2400, 2, 29));
    assert!(date(2000, 1, 1).add_days(400 * 365 + 97 + 60) == date(2400, 3, 1));
}

#[test]
fn sub_days() {
    assert!(date(2020, 1, 2).sub_days(1) == date(2020, 1, 1));
    assert!(date(2020, 1, 1).sub_days(1) == date(2019, 12, 31));
    assert!(date(2021, 1, 1).sub_days(366) == date(2020, 1, 1));
}

#[test]
fn add_years() {
    assert!(date(2020, 1, 1).add_years(1).unwrap() == date(2021, 1, 1));
    assert!(date(2000, 2, 29).add_years(400).unwrap() == date(2400, 2, 29));
    assert!(date(2000, 2, 29).add_years(100).unwrap_err().prev_valid() == date(2100, 2, 28));
    assert!(date(2000, 2, 29).add_years(100).unwrap_err().next_valid() == date(2100, 3, 1));
}

#[test]
fn sub_years() {
    assert!(date(2020, 1, 1).sub_years(1).unwrap() == date(2019, 1, 1));
    assert!(date(2000, 2, 29).sub_years(400).unwrap() == date(1600, 2, 29));
    assert!(date(2000, 2, 29).sub_years(100).unwrap_err().prev_valid() == date(1900, 2, 28));
}

#[test]
fn date_add_months() {
    assert!(date(2021, 1, 31).add_months(2).unwrap() == date(2021, 3, 31));
    assert!(date(2021, 1, 31).add_months(1).unwrap_err().prev_valid() == date(2021, 2, 28));
    assert!(date(2021, 1, 31).add_months(1).unwrap_err().next_valid() == date(2021, 3, 1));

    assert!(date(2021, 1, 31).add_months(14).unwrap() == date(2022, 3, 31));
    assert!(date(2021, 1, 31).add_months(13).unwrap_err().prev_valid() == date(2022, 2, 28));
    assert!(date(2021, 1, 31).add_months(13).unwrap_err().next_valid() == date(2022, 3, 1));
}

#[test]
fn date_sub_months() {
    assert!(date(2021, 3, 31).sub_months(2).unwrap() == date(2021, 1, 31));
    assert!(date(2021, 3, 31).sub_months(1).unwrap_err().prev_valid() == date(2021, 2, 28));
}

#[test]
fn parse() {
    assert!("2020-01-02".parse::<Date>().unwrap().year().to_number() == 2020);
    assert!("2020-01-02".parse::<Date>().unwrap().month().to_number() == 1);
    assert!("2020-01-02".parse::<Date>().unwrap().day() == 2);
    assert!(matches!(
        "not-a-date".parse::<Date>(),
        Err(DateParseError::InvalidDateSyntax(_))
    ));
    assert!(matches!(
        "2019-30-12".parse::<Date>(),
        Err(DateParseError::InvalidDate(_))
    ));
}

#[test]
fn parse_edge_cases() {
    // Fields of any width are accepted, as long as the values fit.
    assert!("2020-1-2".parse::<Date>().unwrap() == date(2020, 1, 2));
    assert!("0002020-001-0002".parse::<Date>().unwrap() == date(2020, 1, 2));
    // A leading minus sign belongs to the year.
    assert!("-0800-01-02".parse::<Date>().unwrap() == date(-800, 1, 2));
    assert!("-32768-01-01".parse::<Date>().unwrap() == date(-32768, 1, 1));
    // Trailing garbage, missing fields, and overflowing values are
    // syntax errors.
    assert!(matches!(
        "2020-01-02-03".parse::<Date>(),
        Err(DateParseError::InvalidDateSyntax(_))
    ));
    assert!(matches!(
        "2020-01".parse::<Date>(),
        Err(DateParseError::InvalidDateSyntax(_))
    ));
    assert!(matches!(
        "".parse::<Date>(),
        Err(DateParseError::InvalidDateSyntax(_))
    ));
    assert!(matches!(
        "40000-01-01".parse::<Date>(),
        Err(DateParseError::InvalidDateSyntax(_))
    ));
    assert!(matches!(
        "2020-+1-02".parse::<Date>(),
        Err(DateParseError::InvalidDateSyntax(_))
    ));
    // A month number that fits in a byte but not the calendar reports the
    // offending number.
    assert!(matches!(
        "2020-13-02".parse::<Date>(),
        Err(DateParseError::InvalidDate(InvalidDate::InvalidMonthNumber(InvalidMonthNumber {
            number: 13,
        })))
    ));
}

#[test]
fn parse_format_round_trip() {
    let sample = [
        date(2020, 1, 2),
        date(2020, 12, 31),
        date(0, 1, 1),
        date(-1, 12, 31),
        date(-800, 2, 29),
        date(9999, 3, 30),
        date(10000, 3, 30),
        date(-32768, 1, 1),
        date(32767, 12, 31),
    ];
    for d in sample {
        assert!(d.format().parse::<Date>().unwrap() == d);
    }
}

#[test]
fn from_unix_timestamp() {
    const SECONDS_IN_DAY: i64 = 60 * 60 * 24;
    assert!(Date::from_unix_timestamp(0) == date(1970, 1, 1));
    assert!(Date::from_unix_timestamp(SECONDS_IN_DAY) == date(1970, 1, 2));
    assert!(Date::from_unix_timestamp(1592611200) == date(2020, 06, 20));
    assert!(Date::from_unix_timestamp(1592697599) == date(2020, 06, 20));
    assert!(Date::from_unix_timestamp(1592697600) == date(2020, 06, 21));
}

#[test]
fn from_unix_timestamp_negative() {
    // Negative timestamps round towards the earlier day.
    assert!(Date::from_unix_timestamp(-1) == date(1969, 12, 31));
    assert!(Date::from_unix_timestamp(-86400) == date(1969, 12, 31));
    assert!(Date::from_unix_timestamp(-86401) == date(1969, 12, 30));
}

#[test]
fn to_unix_timestamp() {
    const SECONDS_IN_DAY: i64 = 60 * 60 * 24;
    assert!(date(1970, 1, 1).to_unix_timestamp() == 0);
    assert!(date(1970, 1, 2).to_unix_timestamp() == SECONDS_IN_DAY);
    assert!(date(2020, 06, 20).to_unix_timestamp() == 1592611200);
}

#[test]
fn date_format() {
    assert!(Date::new(2020, Month::January.to_number(), 2).unwrap().format() == "2020-01-02");
    assert!(date(-800, 1, 2).format() == "-800-01-02");
    assert!(date(0, 2, 29).format() == "0000-02-29");
}

#[test]
fn days_remaining_in_year() {
    assert!(date(2020, 1, 1).days_remaining_in_year() == 366);
    assert!(date(2021, 1, 1).days_remaining_in_year() == 365);
    assert!(date(2021, 12, 31).days_remaining_in_year() == 1);
}

#[test]
fn invalid_day_of_month_next_prev_valid() {
    let e = match Date::new(2020, April.to_number(), 31) {
        Err(InvalidDate::InvalidDayOfMonth(e)) => e,
        _ => panic!("expected an invalid day of month"),
    };
    assert!(e.next_valid() == date(2020, 5, 1));
    assert!(e.prev_valid() == date(2020, 4, 30));
}

#[test]
fn or_next_prev_valid() {
    assert!(date(2020, 1, 31).add_months(2).or_next_valid() == date(2020, 3, 31));
    assert!(date(2020, 1, 31).add_months(1).or_next_valid() == date(2020, 3, 1));
    assert!(date(2020, 1, 31).add_months(1).or_prev_valid() == date(2020, 2, 29));
}

#[test]
fn to_number() {
    assert!(matches!(Month::new(0), Err(InvalidMonthNumber { number: 0 })));
    assert!(matches!(Month::new(13), Err(InvalidMonthNumber { number: 13 })));
    assert!(matches!(Month::new(1), Ok(January)));
    assert!(matches!(Month::new(2), Ok(February)));
    assert!(matches!(Month::new(3), Ok(March)));
    assert!(matches!(Month::new(4), Ok(April)));
    assert!(matches!(Month::new(5), Ok(May)));
    assert!(matches!(Month::new(6), Ok(June)));
    assert!(matches!(Month::new(7), Ok(July)));
    assert!(matches!(Month::new(8), Ok(August)));
    assert!(matches!(Month::new(9), Ok(September)));
    assert!(matches!(Month::new(10), Ok(October)));
    assert!(matches!(Month::new(11), Ok(November)));
    assert!(matches!(Month::new(12), Ok(December)));

    assert!(January.to_number() == 1);
    assert!(February.to_number() == 2);
    assert!(March.to_number() == 3);
    assert!(April.to_number() == 4);
    assert!(May.to_number() == 5);
    assert!(June.to_number() == 6);
    assert!(July.to_number() == 7);
    assert!(August.to_number() == 8);
    assert!(September.to_number() == 9);
    assert!(October.to_number() == 10);
    assert!(November.to_number() == 11);
    assert!(December.to_number() == 12);
}

#[test]
fn with_year() {
    assert!(January.with_year(2020) == YearMonth::new(2020, January));
    assert!(February.with_year(-1200) == YearMonth::new(-1200, February));
}

#[test]
fn wrapping_add() {
    assert!(January.wrapping_add(0) == January);
    assert!(January.wrapping_add(1) == February);
    assert!(January.wrapping_add(2) == March);
    assert!(January.wrapping_add(12) == January);
    assert!(January.wrapping_add(13) == February);

    assert!(January.wrapping_add(-1) == December);
    assert!(January.wrapping_add(-2) == November);
    assert!(January.wrapping_add(-12) == January);
    assert!(January.wrapping_add(-13) == December);
}

#[test]
fn wrapping_sub() {
    assert!(January.wrapping_sub(0) == January);
    assert!(January.wrapping_sub(1) == December);
    assert!(January.wrapping_sub(2) == November);
    assert!(January.wrapping_sub(12) == January);
    assert!(January.wrapping_sub(13) == December);

    assert!(January.wrapping_sub(-0) == January);
    assert!(January.wrapping_sub(-1) == February);
    assert!(January.wrapping_sub(-2) == March);
    assert!(January.wrapping_sub(-12) == January);
    assert!(January.wrapping_sub(-13) == February);
}

#[test]
fn wrapping_add_extremes() {
    // Wrapping is correct for counts spanning multiple negative wraps.
    assert!(January.wrapping_add(i8::MIN) == May);
    assert!(January.wrapping_add(i8::MAX) == August);
    assert!(January.wrapping_sub(i8::MIN) == September);
    assert!(December.wrapping_next() == January);
    assert!(January.wrapping_prev() == December);
}

#[test]
fn month_format() {
    assert!(January.name() == "January");
    assert!(format!("{:?}", January) == "January");
}

#[test]
fn modulo_i32() {
    assert!(gregorian::modulo_i32(8, 12) == 8);
    assert!(gregorian::modulo_i32(20, 12) == 8);
    assert!(gregorian::modulo_i32(-4, 12) == 8);
    assert!(gregorian::modulo_i32(-16, 12) == 8);

    assert!(gregorian::modulo_i32(12, 12) == 0);
    assert!(gregorian::modulo_i32(24, 12) == 0);
    assert!(gregorian::modulo_i32(-12, 12) == 0);
    assert!(gregorian::modulo_i32(-24, 12) == 0);
}

#[test]
fn modulo_i16_small() {
    assert!(modulo_i16(8, 12) == 8);
    assert!(modulo_i16(-4, 12) == 8);
    assert!(modulo_i16(-32768, 400) == 32);
    assert!(modulo_i16(32767, 400) == 367);
}

#[test]
fn has_leap_day() {
    assert!(Year::new(2020).has_leap_day() == true);
    assert!(Year::new(2021).has_leap_day() == false);
    assert!(Year::new(1900).has_leap_day() == false);
    assert!(Year::new(2000).has_leap_day() == true);
}

#[test]
fn with_day_of_year() {
    let mut d = date(2020, 1, 1);
    for i in 1..=366 {
        assert!(Year::new(2020).with_day_of_year(i).unwrap() == d);
        d = d.next();
    }

    let mut d = date(2021, 1, 1);
    for i in 1..=365 {
        assert!(Year::new(2021).with_day_of_year(i).unwrap() == d);
        d = d.next();
    }

    assert!(matches!(Year::new(2020).with_day_of_year(0), Err(_)));
    assert!(matches!(Year::new(2021).with_day_of_year(0), Err(_)));
    assert!(matches!(Year::new(2020).with_day_of_year(367), Err(_)));
    assert!(matches!(Year::new(2021).with_day_of_year(368), Err(_)));
}

#[test]
fn months() {
    let year = Year::new(2020);
    let months = year.months();
    assert!(months[0] == year.with_month(January));
    assert!(months[1] == year.with_month(February));
    assert!(months[2] == year.with_month(March));
    assert!(months[3] == year.with_month(April));
    assert!(months[4] == year.with_month(May));
    assert!(months[5] == year.with_month(June));
    assert!(months[6] == year.with_month(July));
    assert!(months[7] == year.with_month(August));
    assert!(months[8] == year.with_month(September));
    assert!(months[9] == year.with_month(October));
    assert!(months[10] == year.with_month(November));
    assert!(months[11] == year.with_month(December));
}

#[test]
fn year_navigation() {
    assert!(Year::new(2020).next() == Year::new(2021));
    assert!(Year::new(2020).prev() == Year::new(2019));
    assert!(Year::new(2020).first_month() == YearMonth::new(2020, January));
    assert!(Year::new(2020).last_month() == YearMonth::new(2020, December));
    assert!(Year::new(2020).first_day() == date(2020, 1, 1));
    assert!(Year::new(2020).last_day() == date(2020, 12, 31));
    assert!(Year::new(2020).total_days() == 366);
    assert!(Year::new(2021).total_days() == 365);
}

#[test]
fn format_year() {
    assert!(Year::new(2020).format() == "2020");
    assert!(Year::new(-5).format() == "-005");
    assert!(Year::new(12345).format() == "12345");
}

#[test]
fn year_month_add_months() {
    for i in -200..=200 {
        let base = Year::new(2000).with_month(January);
        assert!(base.add_months(i * 12 + 1) == Year::new(2000 + i as i16).with_month(February));
        assert!(base.add_months(i * 12 + 2) == Year::new(2000 + i as i16).with_month(March));
        assert!(base.add_months(i * 12 + 3) == Year::new(2000 + i as i16).with_month(April));
        assert!(base.add_months(i * 12 + 4) == Year::new(2000 + i as i16).with_month(May));
        assert!(base.add_months(i * 12 + 5) == Year::new(2000 + i as i16).with_month(June));
        assert!(base.add_months(i * 12 + 6) == Year::new(2000 + i as i16).with_month(July));
        assert!(base.add_months(i * 12 + 7) == Year::new(2000 + i as i16).with_month(August));
        assert!(base.add_months(i * 12 + 8) == Year::new(2000 + i as i16).with_month(September));
        assert!(base.add_months(i * 12 + 9) == Year::new(2000 + i as i16).with_month(October));
        assert!(base.add_months(i * 12 + 10) == Year::new(2000 + i as i16).with_month(November));
        assert!(base.add_months(i * 12 + 11) == Year::new(2000 + i as i16).with_month(December));
        assert!(base.add_months(i * 12 + 12) == Year::new(2001 + i as i16).with_month(January));

        assert!(base.add_months(i * 12 + -1) == Year::new(1999 + i as i16).with_month(December));
        assert!(base.add_months(i * 12 + -2) == Year::new(1999 + i as i16).with_month(November));
        assert!(base.add_months(i * 12 + -3) == Year::new(1999 + i as i16).with_month(October));
        assert!(base.add_months(i * 12 + -4) == Year::new(1999 + i as i16).with_month(September));
        assert!(base.add_months(i * 12 + -5) == Year::new(1999 + i as i16).with_month(August));
        assert!(base.add_months(i * 12 + -6) == Year::new(1999 + i as i16).with_month(July));
        assert!(base.add_months(i * 12 + -7) == Year::new(1999 + i as i16).with_month(June));
        assert!(base.add_months(i * 12 + -8) == Year::new(1999 + i as i16).with_month(May));
        assert!(base.add_months(i * 12 + -9) == Year::new(1999 + i as i16).with_month(April));
        assert!(base.add_months(i * 12 + -10) == Year::new(1999 + i as i16).with_month(March));
        assert!(base.add_months(i * 12 + -11) == Year::new(1999 + i as i16).with_month(February));
        assert!(base.add_months(i * 12 + -12) == Year::new(1999 + i as i16).with_month(January));
    }
}

#[test]
fn year_month_navigation() {
    assert!(YearMonth::new(2020, December).next() == YearMonth::new(2021, January));
    assert!(YearMonth::new(2020, January).prev() == YearMonth::new(2019, December));
    assert!(YearMonth::new(2020, March).next() == YearMonth::new(2020, April));
    assert!(YearMonth::new(2020, March).prev() == YearMonth::new(2020, February));
    assert!(YearMonth::new(2020, February).add_years(100) == YearMonth::new(2120, February));
    assert!(YearMonth::new(2020, February).sub_years(100) == YearMonth::new(1920, February));
    assert!(YearMonth::new(2020, February).sub_months(2) == YearMonth::new(2019, December));
    assert!(YearMonth::new(2020, February).first_day() == date(2020, 2, 1));
    assert!(YearMonth::new(2020, February).last_day() == date(2020, 2, 29));
    assert!(matches!(YearMonth::new(2020, February).with_day(30), Err(_)));
    assert!(YearMonth::new(2020, February).with_day(29).unwrap() == date(2020, 2, 29));
}

#[test]
fn total_days() {
    assert!(Year::new(2020).with_month(January).total_days() == 31);
    assert!(Year::new(2020).with_month(February).total_days() == 29);
    assert!(Year::new(2020).with_month(March).total_days() == 31);
    assert!(Year::new(2020).with_month(April).total_days() == 30);
    assert!(Year::new(2020).with_month(May).total_days() == 31);
    assert!(Year::new(2020).with_month(June).total_days() == 30);
    assert!(Year::new(2020).with_month(July).total_days() == 31);
    assert!(Year::new(2020).with_month(August).total_days() == 31);
    assert!(Year::new(2020).with_month(September).total_days() == 30);
    assert!(Year::new(2020).with_month(October).total_days() == 31);
    assert!(Year::new(2020).with_month(November).total_days() == 30);
    assert!(Year::new(2020).with_month(December).total_days() == 31);

    assert!(Year::new(2021).with_month(January).total_days() == 31);
    assert!(Year::new(2021).with_month(February).total_days() == 28);
    assert!(Year::new(2021).with_month(March).total_days() == 31);
    assert!(Year::new(2021).with_month(April).total_days() == 30);
    assert!(Year::new(2021).with_month(May).total_days() == 31);
    assert!(Year::new(2021).with_month(June).total_days() == 30);
    assert!(Year::new(2021).with_month(July).total_days() == 31);
    assert!(Year::new(2021).with_month(August).total_days() == 31);
    assert!(Year::new(2021).with_month(September).total_days() == 30);
    assert!(Year::new(2021).with_month(October).total_days() == 31);
    assert!(Year::new(2021).with_month(November).total_days() == 30);
    assert!(Year::new(2021).with_month(December).total_days() == 31);

    assert!(YearMonth::new(1900, February).total_days() == 28);
    assert!(YearMonth::new(2000, February).total_days() == 29);
}

#[test]
fn start_day_of_year() {
    for year in -400..=400 {
        // We assume total_days() works, since it has its own unit test,
        // then cross check start days against that.
        let mut start_day = 1;
        for month in &Year::new(year).months() {
            assert!(month.day_of_year() == start_day);
            start_day += u16::from(month.total_days());
        }
    }
}

#[test]
fn year_month_format() {
    assert!(Year::new(2020).with_month(January).format() == "2020-01");
    assert!(Year::new(-5).with_month(December).format() == "-005-12");
}
