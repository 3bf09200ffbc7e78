//! Civil dates of the proleptic Gregorian calendar, and ISO 8601 timestamps.
use vstd::arithmetic::div_mod::lemma_fundamental_div_mod_converse;
use vstd::prelude::*;

use crate::decimal::{decimal, decimal_digit, push_decimal, push_digit};

verus! {

/// Whether a year has a leap day.
pub open spec fn is_leap_year(year: int) -> bool {
    year % 4 == 0 && (year % 100 != 0 || year % 400 == 0)
}

/// The number of days in a month.
pub open spec fn days_in_month(year: int, month: int) -> int {
    if month == 2 {
        if is_leap_year(year) {
            29
        } else {
            28
        }
    } else if month == 4 || month == 6 || month == 9 || month == 11 {
        30
    } else {
        31
    }
}

/// Whether there is such a date.
pub open spec fn is_date(year: int, month: int, day: int) -> bool {
    1 <= month <= 12 && 1 <= day <= days_in_month(year, month)
}

/// The number of days in a year before a month of it.
pub open spec fn days_before_month(year: int, month: int) -> int
    decreases month,
{
    if month <= 1 {
        0
    } else {
        days_before_month(year, month - 1) + days_in_month(year, month - 1)
    }
}

/// The number of days from the beginning of the year 1 to the beginning of a year.
pub open spec fn days_before_year(year: int) -> int {
    let past = year - 1;
    365 * past + past / 4 - past / 100 + past / 400
}

/// The number of days from 1970-01-01 to a date.
pub open spec fn days_from_civil(year: int, month: int, day: int) -> int {
    days_before_year(year) - days_before_year(1970) + days_before_month(year, month) + day - 1
}

pub(crate) proof fn lemma_year_length(year: int)
    ensures
        days_before_year(year + 1) - days_before_year(year) == if is_leap_year(year) {
            366int
        } else {
            365
        },
{
}

/// The year of the era, counted from March, and the day of that year.
proof fn lemma_year_of_era(doe: int, yoe: int)
    requires
        0 <= doe <= 146096,
        yoe == (doe - doe / 1460 + doe / 36524 - doe / 146096) / 365,
    ensures
        0 <= yoe <= 399,
        0 <= doe - (365 * yoe + yoe / 4 - yoe / 100) <= 365,
        doe - (365 * yoe + yoe / 4 - yoe / 100) == 365 ==> is_leap_year(yoe + 1),
{
}

/// The days before a month, counted from the first of March on.
pub(crate) proof fn lemma_days_before_month(year: int)
    ensures
        days_before_month(year, 1) == 0,
        days_before_month(year, 2) == 31,
        ({
            let march = if is_leap_year(year) {
                60int
            } else {
                59
            };
            &&& days_before_month(year, 3) == march
            &&& days_before_month(year, 4) == march + 31
            &&& days_before_month(year, 5) == march + 61
            &&& days_before_month(year, 6) == march + 92
            &&& days_before_month(year, 7) == march + 122
            &&& days_before_month(year, 8) == march + 153
            &&& days_before_month(year, 9) == march + 184
            &&& days_before_month(year, 10) == march + 214
            &&& days_before_month(year, 11) == march + 245
            &&& days_before_month(year, 12) == march + 275
        }),
{
    reveal_with_fuel(days_before_month, 13);
}

/// The month and the day of the month of a day of a year that begins in March.
proof fn lemma_month_and_day(year: int, doy: int, mp: int)
    requires
        0 <= doy <= 365,
        doy == 365 ==> is_leap_year(year + 1),
        mp == (5 * doy + 2) / 153,
    ensures
        0 <= mp <= 11,
        mp < 10 ==> {
            let day = doy - (153 * mp + 2) / 5 + 1;
            &&& is_date(year, mp + 3, day)
            &&& days_before_year(year) + days_before_month(year, mp + 3) + day - 1
                == days_before_year(year + 1) - 306 + doy
        },
        mp >= 10 ==> {
            let day = doy - (153 * mp + 2) / 5 + 1;
            &&& is_date(year + 1, mp - 9, day)
            &&& days_before_year(year + 1) + days_before_month(year + 1, mp - 9) + day - 1
                == days_before_year(year + 1) - 306 + doy
        },
{
    lemma_days_before_month(year);
    lemma_days_before_month(year + 1);
    lemma_year_length(year);
    assert(mp == 0 || mp == 1 || mp == 2 || mp == 3 || mp == 4 || mp == 5 || mp == 6 || mp == 7
        || mp == 8 || mp == 9 || mp == 10 || mp == 11);
}

/// Four hundred years are one turn of the calendar.
proof fn lemma_era(yoe: int, era: int)
    requires
        0 <= yoe <= 399,
    ensures
        days_before_year(yoe + era * 400 + 1) == era * 146097 + 365 * yoe + yoe / 4 - yoe / 100,
        is_leap_year(yoe + era * 400 + 1) == is_leap_year(yoe + 1),
{
    let y = yoe + era * 400;
    lemma_fundamental_div_mod_converse(y, 4, yoe / 4 + era * 100, yoe % 4);
    lemma_fundamental_div_mod_converse(y, 100, yoe / 100 + era * 4, yoe % 100);
    lemma_fundamental_div_mod_converse(y, 400, era, yoe);
    lemma_fundamental_div_mod_converse(y + 1, 4, (yoe + 1) / 4 + era * 100, (yoe + 1) % 4);
    lemma_fundamental_div_mod_converse(y + 1, 100, (yoe + 1) / 100 + era * 4, (yoe + 1) % 100);
    lemma_fundamental_div_mod_converse(y + 1, 400, (yoe + 1) / 400 + era, (yoe + 1) % 400);
}

/// The date of a day, given the era it falls in, the year of the era, the day of that
/// year and the number of the month, years and months counted from March.
proof fn lemma_date_of_day(era: int, yoe: int, doy: int, mp: int)
    requires
        0 <= yoe <= 399,
        0 <= doy <= 365,
        doy == 365 ==> is_leap_year(yoe + 1),
        mp == (5 * doy + 2) / 153,
    ensures
        0 <= mp <= 11,
        1 <= doy - (153 * mp + 2) / 5 + 1 <= 31,
        ({
            let day = doy - (153 * mp + 2) / 5 + 1;
            let month = if mp < 10 {
                mp + 3
            } else {
                mp - 9
            };
            let year = yoe + era * 400 + if month <= 2 {
                1int
            } else {
                0
            };
            &&& is_date(year, month, day)
            &&& days_from_civil(year, month, day) == era * 146097 + (365 * yoe + yoe / 4 - yoe
                / 100) + doy - 719468
        }),
{
    lemma_era(yoe, era);
    lemma_month_and_day(yoe + era * 400, doy, mp);
    assert(days_before_year(1970) == 719162);
}

/// The date that is so many days after 1970-01-01. The date is unique, see
/// `dates_are_told_apart_by_their_days`.
pub fn civil_from_days(z0: i64) -> (r: (i64, u32, u32))
    requires
        z0 <= i64::MAX - 719468,
    ensures
        is_date(r.0 as int, r.1 as int, r.2 as int),
        days_from_civil(r.0 as int, r.1 as int, r.2 as int) == z0,
{
    let z: i64 = z0 + 719468;
    let shifted: i64 = if z >= 0 {
        z
    } else {
        z - 146096
    };
    let era: i64 = shifted / 146097;
    let doe: i64 = z - era * 146097;
    assert(0 <= doe <= 146096);
    let yoe: i64 = (doe - doe / 1460 + doe / 36524 - doe / 146096) / 365;
    proof {
        lemma_year_of_era(doe as int, yoe as int);
    }
    let y: i64 = yoe + era * 400;
    let doy: i64 = doe - (365 * yoe + yoe / 4 - yoe / 100);
    let mp: i64 = (5 * doy + 2) / 153;
    proof {
        lemma_date_of_day(era as int, yoe as int, doy as int, mp as int);
    }
    let d: u32 = (doy - (153 * mp + 2) / 5 + 1) as u32;
    let m: u32 = (if mp < 10 {
        mp + 3
    } else {
        mp - 9
    }) as u32;
    let next: i64 = if m <= 2 {
        1
    } else {
        0
    };
    (y + next, m, d)
}

/// Whether one date comes before another.
pub open spec fn date_less(a: (int, int, int), b: (int, int, int)) -> bool {
    a.0 < b.0 || a.0 == b.0 && (a.1 < b.1 || a.1 == b.1 && a.2 < b.2)
}

proof fn lemma_day_of_year(year: int, month: int, day: int)
    requires
        is_date(year, month, day),
    ensures
        0 <= days_before_month(year, month) + day - 1 < days_before_year(year + 1)
            - days_before_year(year),
{
    lemma_days_before_month(year);
    lemma_year_length(year);
    assert(month == 1 || month == 2 || month == 3 || month == 4 || month == 5 || month == 6
        || month == 7 || month == 8 || month == 9 || month == 10 || month == 11 || month == 12);
}

proof fn lemma_years_pass(a: int, b: int)
    requires
        a <= b,
    ensures
        days_before_year(a) <= days_before_year(b),
    decreases b - a,
{
    if a < b {
        lemma_years_pass(a, b - 1);
        lemma_year_length(b - 1);
    }
}

proof fn lemma_months_pass(year: int, a: int, b: int)
    requires
        1 <= a < b <= 12,
    ensures
        days_before_month(year, a) + days_in_month(year, a) <= days_before_month(year, b),
    decreases b - a,
{
    if a < b - 1 {
        lemma_months_pass(year, a, b - 1);
    }
}

proof fn lemma_earlier_date(a: (int, int, int), b: (int, int, int))
    requires
        is_date(a.0, a.1, a.2),
        is_date(b.0, b.1, b.2),
        date_less(a, b),
    ensures
        days_from_civil(a.0, a.1, a.2) < days_from_civil(b.0, b.1, b.2),
{
    if a.0 < b.0 {
        lemma_day_of_year(a.0, a.1, a.2);
        lemma_day_of_year(b.0, b.1, b.2);
        lemma_years_pass(a.0 + 1, b.0);
    } else if a.1 < b.1 {
        lemma_months_pass(a.0, a.1, b.1);
    }
}

/// Days are counted in the order of the dates: an earlier date has a smaller number of
/// days, and only one date has a given number.
pub proof fn dates_are_told_apart_by_their_days(a: (int, int, int), b: (int, int, int))
    requires
        is_date(a.0, a.1, a.2),
        is_date(b.0, b.1, b.2),
    ensures
        days_from_civil(a.0, a.1, a.2) < days_from_civil(b.0, b.1, b.2) <==> date_less(a, b),
        days_from_civil(a.0, a.1, a.2) == days_from_civil(b.0, b.1, b.2) <==> a == b,
{
    if date_less(a, b) {
        lemma_earlier_date(a, b);
    } else if date_less(b, a) {
        lemma_earlier_date(b, a);
    }
}

/// The date that is so many days after 1970-01-01.
pub open spec fn civil_date(days: int) -> (int, int, int) {
    choose|date: (int, int, int)| #[trigger]
        is_date(date.0, date.1, date.2) && days_from_civil(date.0, date.1, date.2) == days
}

proof fn lemma_civil_date(days: int, date: (int, int, int))
    requires
        is_date(date.0, date.1, date.2),
        days_from_civil(date.0, date.1, date.2) == days,
    ensures
        civil_date(days) == date,
{
    dates_are_told_apart_by_their_days(civil_date(days), date);
}

/// Every number of days has a date.
pub proof fn lemma_civil_date_exists(days: int)
    ensures
        ({
            let date = civil_date(days);
            is_date(date.0, date.1, date.2) && days_from_civil(date.0, date.1, date.2) == days
        }),
{
    let z = days + 719468;
    let era = z / 146097;
    let doe = z % 146097;
    let yoe = (doe - doe / 1460 + doe / 36524 - doe / 146096) / 365;
    let doy = doe - (365 * yoe + yoe / 4 - yoe / 100);
    let mp = (5 * doy + 2) / 153;
    lemma_year_of_era(doe, yoe);
    lemma_date_of_day(era, yoe, doy, mp);
    let month = if mp < 10 {
        mp + 3
    } else {
        mp - 9
    };
    let year = yoe + era * 400 + if month <= 2 {
        1int
    } else {
        0
    };
    lemma_civil_date(days, (year, month, doy - (153 * mp + 2) / 5 + 1));
}

/// A text with zeros before it, to a width.
pub open spec fn zero_padded(text: Seq<char>, width: int) -> Seq<char> {
    if text.len() < width {
        Seq::new((width - text.len()) as nat, |i: int| '0') + text
    } else {
        text
    }
}

/// A year in at least four characters, of which the sign of a negative year is one.
pub open spec fn year_text(year: int) -> Seq<char> {
    if year < 0 {
        seq!['-'] + zero_padded(decimal(-year), 3)
    } else {
        zero_padded(decimal(year), 4)
    }
}

/// A number below a hundred in two digits.
pub open spec fn two_digits(n: int) -> Seq<char> {
    seq![decimal_digit(n / 10), decimal_digit(n % 10)]
}

/// A point in time, given in seconds since 1970-01-01T00:00:00Z, as
/// `YYYY-MM-DDTHH:MM:SSZ`.
pub open spec fn iso8601(epoch: int) -> Seq<char> {
    let date = civil_date(epoch / 86400);
    let secs = epoch % 86400;
    year_text(date.0) + seq!['-'] + two_digits(date.1) + seq!['-'] + two_digits(date.2) + seq!['T']
        + two_digits(secs / 3600) + seq![':'] + two_digits(secs % 3600 / 60) + seq![':']
        + two_digits(secs % 60) + seq!['Z']
}

proof fn lemma_decimal_length(n: int)
    requires
        0 <= n,
    ensures
        n < 10 ==> decimal(n).len() == 1,
        10 <= n < 100 ==> decimal(n).len() == 2,
        100 <= n < 1000 ==> decimal(n).len() == 3,
        1000 <= n ==> decimal(n).len() >= 4,
{
    reveal_with_fuel(decimal, 4);
}

/// Appends zeros and a number in decimal, to a width of at most four.
fn push_padded(out: &mut String, n: u64, width: u64)
    requires
        1 <= width <= 4,
    ensures
        final(out)@ == old(out)@ + zero_padded(decimal(n as int), width as int),
{
    let ghost before = out@;
    if width >= 4 && n < 1000 {
        push_digit(out, 0);
    }
    if width >= 3 && n < 100 {
        push_digit(out, 0);
    }
    if width >= 2 && n < 10 {
        push_digit(out, 0);
    }
    proof {
        lemma_decimal_length(n as int);
    }
    push_decimal(out, n);
    assert(out@ =~= before + zero_padded(decimal(n as int), width as int));
}

/// Appends a year.
fn push_year(out: &mut String, year: i64)
    ensures
        final(out)@ == old(out)@ + year_text(year as int),
{
    let ghost before = out@;
    if year < 0 {
        proof {
            reveal_strlit("-");
        }
        out.append("-");
        let magnitude: u64 = (-(year + 1)) as u64 + 1;
        push_padded(out, magnitude, 3);
        assert(out@ =~= before + year_text(year as int));
    } else {
        push_padded(out, year as u64, 4);
    }
}

/// Appends a number below a hundred in two digits.
fn push_two_digits(out: &mut String, n: u64)
    requires
        n < 100,
    ensures
        final(out)@ == old(out)@ + two_digits(n as int),
{
    let ghost before = out@;
    push_digit(out, n / 10);
    push_digit(out, n % 10);
    assert(out@ =~= before + two_digits(n as int));
}

/// A point in time, given in seconds since 1970-01-01T00:00:00Z, as
/// `YYYY-MM-DDTHH:MM:SSZ`.
pub fn epoch_to_iso8601(epoch: i64) -> (r: String)
    ensures
        r@ == iso8601(epoch as int),
{
    let mut days: i64 = epoch / 86400;
    let mut rest: i64 = epoch % 86400;
    if rest < 0 {
        days = days - 1;
        rest = rest + 86400;
    }
    assert(days == epoch as int / 86400);
    assert(rest == epoch as int % 86400);
    let secs: u64 = rest as u64;
    let (y, m, d) = civil_from_days(days);
    let ghost date = (y as int, m as int, d as int);
    proof {
        lemma_civil_date(days as int, date);
        reveal_strlit("-");
        reveal_strlit("T");
        reveal_strlit(":");
        reveal_strlit("Z");
    }
    let mut out = String::new();
    push_year(&mut out, y);
    out.append("-");
    push_two_digits(&mut out, m as u64);
    out.append("-");
    push_two_digits(&mut out, d as u64);
    out.append("T");
    push_two_digits(&mut out, secs / 3600);
    out.append(":");
    push_two_digits(&mut out, (secs % 3600) / 60);
    out.append(":");
    push_two_digits(&mut out, secs % 60);
    out.append("Z");
    assert(out@ =~= iso8601(epoch as int));
    out
}

} // verus!
