//! The calendar day by day, and timestamps digit by digit.
use vstd::prelude::*;

use crate::calendar::{
    civil_date, days_before_month, days_from_civil, is_date, iso8601, lemma_civil_date_exists,
    lemma_days_before_month, lemma_year_length, two_digits, year_text, zero_padded,
};
use crate::decimal::{decimal, decimal_digit};

verus! {

/// The last day of a month of the Gregorian calendar.
pub open spec fn last_day(year: int, month: int) -> int {
    if month == 4 || month == 6 || month == 9 || month == 11 {
        30
    } else if month != 2 {
        31
    } else if year % 400 == 0 || year % 4 == 0 && year % 100 != 0 {
        29
    } else {
        28
    }
}

/// Dates are those of the Gregorian calendar: twelve months, each from its first to its last
/// day.
pub proof fn dates_are_gregorian(year: int, month: int, day: int)
    ensures
        is_date(year, month, day) <==> 1 <= month <= 12 && 1 <= day <= last_day(year, month),
{
}

/// Days are counted one by one: the first of January 1970 is day 0, and the number of the day
/// after a date is one more, whether that is in the same month, in the next month or in the
/// next year.
pub proof fn days_are_counted_one_by_one(year: int, month: int, day: int)
    requires
        1 <= month <= 12,
        1 <= day <= last_day(year, month),
    ensures
        days_from_civil(1970, 1, 1) == 0,
        day < last_day(year, month) ==> days_from_civil(year, month, day + 1) == days_from_civil(
            year,
            month,
            day,
        ) + 1,
        day == last_day(year, month) && month < 12 ==> days_from_civil(year, month + 1, 1)
            == days_from_civil(year, month, day) + 1,
        day == last_day(year, month) && month == 12 ==> days_from_civil(year + 1, 1, 1)
            == days_from_civil(year, month, day) + 1,
{
    lemma_days_before_month(1970);
    lemma_days_before_month(year);
    lemma_days_before_month(year + 1);
    lemma_year_length(year);
    if month < 12 {
        assert(days_before_month(year, month + 1) == days_before_month(year, month) + last_day(
            year,
            month,
        ));
    }
}

/// The number that decimal digits stand for.
pub open spec fn number_of(digits: Seq<char>) -> int
    decreases digits.len(),
{
    if digits.len() == 0 {
        0
    } else {
        10 * number_of(digits.drop_last()) + (digits.last() as u32 - 48)
    }
}

/// Whether a text is decimal digits alone.
pub open spec fn are_digits(text: Seq<char>) -> bool {
    forall|i: int| 0 <= i < text.len() ==> 48 <= (#[trigger] text[i]) as u32 <= 57
}

/// Whether a text is a number in decimal with a least number of digits: zeros stand before it
/// only as far as they are needed for that.
pub open spec fn is_number_in(text: Seq<char>, n: int, least: int) -> bool {
    &&& text.len() >= least
    &&& are_digits(text)
    &&& number_of(text) == n
    &&& text.len() > least && text.len() > 1 ==> text[0] != '0'
}

proof fn lemma_decimal(n: int)
    requires
        0 <= n,
    ensures
        is_number_in(decimal(n), n, 1),
    decreases n,
{
    let text = decimal(n);
    if n < 10 {
        assert(text.drop_last() =~= Seq::<char>::empty());
        assert(number_of(text.drop_last()) == 0);
        assert(text.last() == decimal_digit(n));
        assert(decimal_digit(n) as u32 == 48 + n);
    } else {
        lemma_decimal(n / 10);
        let front = decimal(n / 10);
        assert(text.drop_last() =~= front);
        assert(decimal_digit(n % 10) as u32 == 48 + n % 10);
        assert(n == 10 * (n / 10) + n % 10);
        assert forall|i: int| 0 <= i < text.len() implies 48 <= (#[trigger] text[i]) as u32
            <= 57 by {
            if i < front.len() {
                assert(text[i] == front[i]);
            }
        }
        if front.len() == 1 {
            assert(front.drop_last() =~= Seq::<char>::empty());
            assert(number_of(front.drop_last()) == 0);
            assert(front.last() == front[0]);
            assert(number_of(front) == front[0] as u32 - 48);
        }
        assert(text[0] == front[0]);
        assert(text.last() == decimal_digit(n % 10));
    }
}

proof fn lemma_zeros(zeros: nat, text: Seq<char>)
    ensures
        number_of(Seq::new(zeros, |i: int| '0') + text) == number_of(text),
    decreases text.len(), zeros,
{
    let front = Seq::new(zeros, |i: int| '0');
    if text.len() > 0 {
        lemma_zeros(zeros, text.drop_last());
        assert((front + text).drop_last() =~= front + text.drop_last());
    } else if zeros > 0 {
        lemma_zeros((zeros - 1) as nat, text);
        assert((front + text).drop_last() =~= Seq::new((zeros - 1) as nat, |i: int| '0') + text);
    } else {
        assert(front + text =~= text);
    }
}

proof fn lemma_padded(n: int, width: int)
    requires
        0 <= n,
        1 <= width,
    ensures
        is_number_in(zero_padded(decimal(n), width), n, width),
{
    lemma_decimal(n);
    if decimal(n).len() < width {
        lemma_zeros((width - decimal(n).len()) as nat, decimal(n));
    }
}

/// Whether a text is a year: its digits, four or more, or a minus sign and its digits, three or
/// more.
pub open spec fn is_year_in(text: Seq<char>, year: int) -> bool {
    if year < 0 {
        text.len() > 0 && text[0] == '-' && is_number_in(text.skip(1), -year, 3)
    } else {
        is_number_in(text, year, 4)
    }
}

/// Whether two digits stand at a position.
pub open spec fn two_stand_at(text: Seq<char>, i: int, n: int) -> bool {
    text[i] as u32 == 48 + n / 10 && text[i + 1] as u32 == 48 + n % 10
}

/// A timestamp is the year, and behind it month, day, hour, minute and second in two digits
/// each, with their marks; the date is the one so many whole days after the first of January
/// 1970, and the time of day is what is left of the seconds.
pub proof fn timestamp_tells_date_and_time(epoch: int)
    ensures
        ({
            let text = iso8601(epoch);
            let n = text.len() - 16;
            exists|year: int, month: int, day: int, hour: int, minute: int, second: int|
                {
                    &&& 1 <= month <= 12
                    &&& 1 <= day <= last_day(year, month)
                    &&& 0 <= hour < 24
                    &&& 0 <= minute < 60
                    &&& 0 <= second < 60
                    &&& 86400 * #[trigger] days_from_civil(year, month, day) + 3600 * hour + 60
                        * minute + second == epoch
                    &&& n >= 4
                    &&& is_year_in(text.take(n), year)
                    &&& text[n] == '-'
                    &&& two_stand_at(text, n + 1, month)
                    &&& text[n + 3] == '-'
                    &&& two_stand_at(text, n + 4, day)
                    &&& text[n + 6] == 'T'
                    &&& #[trigger] two_stand_at(text, n + 7, hour)
                    &&& text[n + 9] == ':'
                    &&& #[trigger] two_stand_at(text, n + 10, minute)
                    &&& text[n + 12] == ':'
                    &&& #[trigger] two_stand_at(text, n + 13, second)
                    &&& text[n + 15] == 'Z'
                }
        }),
{
    let text = iso8601(epoch);
    let days = epoch / 86400;
    let secs = epoch % 86400;
    lemma_civil_date_exists(days);
    let date = civil_date(days);
    let hour = secs / 3600;
    let minute = secs % 3600 / 60;
    let second = secs % 60;
    let front = year_text(date.0);
    let n = text.len() - 16;
    if date.0 < 0 {
        lemma_padded(-date.0, 3);
        assert(front.skip(1) =~= zero_padded(decimal(-date.0), 3));
    } else {
        lemma_padded(date.0, 4);
    }
    assert(n == front.len());
    assert(text.take(n) =~= front);
    assert(86400 * days_from_civil(date.0, date.1, date.2) + 3600 * hour + 60 * minute + second
        == epoch);
    assert(two_digits(date.1).len() == 2 && two_digits(date.2).len() == 2);
    assert(0 <= date.1 < 100 && 0 <= date.2 < 100);
    assert(two_stand_at(text, n + 1, date.1));
    assert(two_stand_at(text, n + 4, date.2));
    assert(two_stand_at(text, n + 7, hour));
    assert(two_stand_at(text, n + 10, minute));
    assert(two_stand_at(text, n + 13, second));
}

} // verus!
