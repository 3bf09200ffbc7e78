//! Timestamps sort as text in the order of the times they stand for.
use vstd::prelude::*;
use vstd::utf8::{encode_utf8, is_ascii_chars, is_ascii_chars_encode_utf8};

use crate::bytes::{bytes_less_from, text_less, text_order_is_strict_total};
use crate::calendar::{
    civil_date, dates_are_told_apart_by_their_days, iso8601, lemma_civil_date_exists, year_text,
};
use crate::decimal::{decimal, decimal_digit};

verus! {

/// Whether the year of a point in time has four digits: it is from 0 to 9999.
pub open spec fn has_four_digit_year(epoch: int) -> bool {
    0 <= civil_date(epoch / 86400).0 <= 9999
}

proof fn lemma_year_text(year: int)
    requires
        0 <= year <= 9999,
    ensures
        year_text(year) == seq![
            decimal_digit(year / 1000),
            decimal_digit(year / 100 % 10),
            decimal_digit(year / 10 % 10),
            decimal_digit(year % 10),
        ],
{
    reveal_with_fuel(decimal, 4);
    assert(year / 10 / 10 == year / 100);
    assert(year / 10 / 10 / 10 == year / 1000);
    assert(year_text(year) =~= seq![
        decimal_digit(year / 1000),
        decimal_digit(year / 100 % 10),
        decimal_digit(year / 10 % 10),
        decimal_digit(year % 10),
    ]);
}

/// A date and a time of day.
struct Stamp {
    year: int,
    month: int,
    day: int,
    hour: int,
    minute: int,
    second: int,
}

/// Whether every part of a date and time fits in its digits.
spec fn fits(t: Stamp) -> bool {
    &&& 0 <= t.year <= 9999
    &&& 0 <= t.month < 100
    &&& 0 <= t.day < 100
    &&& 0 <= t.hour < 100
    &&& 0 <= t.minute < 100
    &&& 0 <= t.second < 100
}

/// The date and time of a point in time.
spec fn stamp_of(epoch: int) -> Stamp {
    let date = civil_date(epoch / 86400);
    let secs = epoch % 86400;
    Stamp {
        year: date.0,
        month: date.1,
        day: date.2,
        hour: secs / 3600,
        minute: secs % 3600 / 60,
        second: secs % 60,
    }
}

/// The character at a position of a timestamp.
spec fn stamp_char(t: Stamp, i: int) -> char {
    if i == 0 {
        decimal_digit(t.year / 1000)
    } else if i == 1 {
        decimal_digit(t.year / 100 % 10)
    } else if i == 2 {
        decimal_digit(t.year / 10 % 10)
    } else if i == 3 {
        decimal_digit(t.year % 10)
    } else if i == 4 || i == 7 {
        '-'
    } else if i == 5 {
        decimal_digit(t.month / 10)
    } else if i == 6 {
        decimal_digit(t.month % 10)
    } else if i == 8 {
        decimal_digit(t.day / 10)
    } else if i == 9 {
        decimal_digit(t.day % 10)
    } else if i == 10 {
        'T'
    } else if i == 11 {
        decimal_digit(t.hour / 10)
    } else if i == 12 {
        decimal_digit(t.hour % 10)
    } else if i == 13 || i == 16 {
        ':'
    } else if i == 14 {
        decimal_digit(t.minute / 10)
    } else if i == 15 {
        decimal_digit(t.minute % 10)
    } else if i == 17 {
        decimal_digit(t.second / 10)
    } else if i == 18 {
        decimal_digit(t.second % 10)
    } else {
        'Z'
    }
}

/// The characters of a timestamp.
spec fn stamp_text(t: Stamp) -> Seq<char> {
    Seq::new(20, |i: int| stamp_char(t, i))
}

/// Whether one date and time comes before another.
spec fn stamp_less(a: Stamp, b: Stamp) -> bool {
    if a.year != b.year {
        a.year < b.year
    } else if a.month != b.month {
        a.month < b.month
    } else if a.day != b.day {
        a.day < b.day
    } else if a.hour != b.hour {
        a.hour < b.hour
    } else if a.minute != b.minute {
        a.minute < b.minute
    } else {
        a.second < b.second
    }
}

proof fn lemma_stamp_of(epoch: int)
    requires
        has_four_digit_year(epoch),
    ensures
        fits(stamp_of(epoch)),
        iso8601(epoch) == stamp_text(stamp_of(epoch)),
{
    lemma_civil_date_exists(epoch / 86400);
    lemma_year_text(civil_date(epoch / 86400).0);
    assert(iso8601(epoch) =~= stamp_text(stamp_of(epoch)));
}

proof fn lemma_stamp_order(a: int, b: int)
    requires
        a < b,
    ensures
        stamp_less(stamp_of(a), stamp_of(b)),
{
    lemma_civil_date_exists(a / 86400);
    lemma_civil_date_exists(b / 86400);
    dates_are_told_apart_by_their_days(civil_date(a / 86400), civil_date(b / 86400));
    if a / 86400 == b / 86400 {
        let s = a % 86400;
        let t = b % 86400;
        assert(s < t);
        assert(s == s / 3600 * 3600 + s % 3600);
        assert(t == t / 3600 * 3600 + t % 3600);
        assert(s % 3600 == s % 3600 / 60 * 60 + s % 60);
        assert(t % 3600 == t % 3600 / 60 * 60 + t % 60);
    }
}

proof fn lemma_first_difference(x: Seq<u8>, y: Seq<u8>, i: int, k: int)
    requires
        0 <= i <= k < x.len(),
        k < y.len(),
        forall|j: int| 0 <= j < k ==> x[j] == y[j],
        x[k] < y[k],
    ensures
        bytes_less_from(x, y, i),
    decreases k - i,
{
    if i < k {
        lemma_first_difference(x, y, i + 1, k);
    }
}

proof fn lemma_stamp_bytes(t: Stamp)
    requires
        fits(t),
    ensures
        encode_utf8(stamp_text(t)).len() == 20,
        forall|i: int|
            #![trigger encode_utf8(stamp_text(t))[i]]
            0 <= i < 20 ==> encode_utf8(stamp_text(t))[i] == stamp_text(t)[i] as u8,
{
    assert(is_ascii_chars(stamp_text(t)));
    is_ascii_chars_encode_utf8(stamp_text(t));
}

/// The text differs first at position `k`, and is smaller there.
spec fn differs_at(a: Stamp, b: Stamp, k: int) -> bool {
    &&& 0 <= k < 20
    &&& forall|j: int| 0 <= j < k ==> stamp_char(a, j) == stamp_char(b, j)
    &&& (stamp_char(a, k) as u8) < (stamp_char(b, k) as u8)
}

proof fn lemma_digit_order(m: int, n: int)
    requires
        0 <= m < n < 10,
    ensures
        (decimal_digit(m) as u8) < (decimal_digit(n) as u8),
{
}

proof fn lemma_year_differs(a: Stamp, b: Stamp) -> (k: int)
    requires
        0 <= a.year < b.year <= 9999,
    ensures
        differs_at(a, b, k),
{
    let m = a.year;
    let n = b.year;
    if m / 1000 != n / 1000 {
        lemma_digit_order(m / 1000, n / 1000);
        0
    } else if m / 100 != n / 100 {
        lemma_digit_order(m / 100 % 10, n / 100 % 10);
        1
    } else if m / 10 != n / 10 {
        lemma_digit_order(m / 10 % 10, n / 10 % 10);
        2
    } else {
        lemma_digit_order(m % 10, n % 10);
        3
    }
}

/// A field of two digits at position `i` that tells two timestamps apart.
proof fn lemma_field_differs(a: Stamp, b: Stamp, m: int, n: int, i: int) -> (k: int)
    requires
        0 <= i < 18,
        0 <= m < n < 100,
        forall|j: int| 0 <= j < i ==> stamp_char(a, j) == stamp_char(b, j),
        stamp_char(a, i) == decimal_digit(m / 10),
        stamp_char(b, i) == decimal_digit(n / 10),
        stamp_char(a, i + 1) == decimal_digit(m % 10),
        stamp_char(b, i + 1) == decimal_digit(n % 10),
    ensures
        differs_at(a, b, k),
{
    if m / 10 != n / 10 {
        lemma_digit_order(m / 10, n / 10);
        i
    } else {
        lemma_digit_order(m % 10, n % 10);
        i + 1
    }
}

proof fn lemma_stamp_text_order(a: Stamp, b: Stamp) -> (k: int)
    requires
        fits(a),
        fits(b),
        stamp_less(a, b),
    ensures
        differs_at(a, b, k),
{
    if a.year != b.year {
        lemma_year_differs(a, b)
    } else if a.month != b.month {
        lemma_field_differs(a, b, a.month, b.month, 5)
    } else if a.day != b.day {
        lemma_field_differs(a, b, a.day, b.day, 8)
    } else if a.hour != b.hour {
        lemma_field_differs(a, b, a.hour, b.hour, 11)
    } else if a.minute != b.minute {
        lemma_field_differs(a, b, a.minute, b.minute, 14)
    } else {
        lemma_field_differs(a, b, a.second, b.second, 17)
    }
}

proof fn lemma_earlier_sorts_first(a: int, b: int)
    requires
        has_four_digit_year(a),
        has_four_digit_year(b),
        a < b,
    ensures
        text_less(iso8601(a), iso8601(b)),
{
    lemma_stamp_of(a);
    lemma_stamp_of(b);
    lemma_stamp_order(a, b);
    let p = stamp_of(a);
    let q = stamp_of(b);
    let k = lemma_stamp_text_order(p, q);
    lemma_stamp_bytes(p);
    lemma_stamp_bytes(q);
    lemma_first_difference(encode_utf8(stamp_text(p)), encode_utf8(stamp_text(q)), 0, k);
}

/// Timestamps with a year of four digits are twenty characters long, and sort as text
/// in the order of the times they stand for.
pub proof fn timestamps_sort_by_time(a: int, b: int)
    requires
        has_four_digit_year(a),
        has_four_digit_year(b),
    ensures
        iso8601(a).len() == 20,
        a < b <==> text_less(iso8601(a), iso8601(b)),
        a == b <==> iso8601(a) == iso8601(b),
{
    lemma_stamp_of(a);
    text_order_is_strict_total(iso8601(a), iso8601(b), iso8601(a));
    if a < b {
        lemma_earlier_sorts_first(a, b);
    } else if b < a {
        lemma_earlier_sorts_first(b, a);
    }
}

} // verus!
