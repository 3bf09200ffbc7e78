//! Letters, digits and the order of texts, character by character.
use vstd::prelude::*;
use vstd::utf8::encode_utf8;

use crate::bytes::{bytes_less_from, text_less};
use crate::digest::digestible;
use crate::hex::{hex_bytes, hex_digit_value, hex_text, is_hex, upper_hex_digit};
use crate::servtd_collateral::{same_measurement, upper_text};

verus! {

/// Whether two texts are equal but for the case of ASCII letters: as long as each other,
/// and at each position the same character, or a letter from `a` to `z` in one and the
/// letter thirty-two codes below it in the other.
pub open spec fn equal_but_for_case(a: Seq<char>, b: Seq<char>) -> bool {
    &&& a.len() == b.len()
    &&& forall|i: int|
        0 <= i < a.len() ==> {
            ||| (#[trigger] a[i]) == b[i]
            ||| 97 <= a[i] as u32 <= 122 && b[i] as u32 == a[i] as u32 - 32
            ||| 97 <= b[i] as u32 <= 122 && a[i] as u32 == b[i] as u32 - 32
        }
}

/// Measurements are compared letter by letter, and the case of ASCII letters is all that
/// is passed over.
pub proof fn measurements_compare_letter_by_letter(a: Seq<char>, b: Seq<char>)
    ensures
        same_measurement(a, b) <==> equal_but_for_case(a, b),
{
    assert(upper_text(a).len() == a.len() && upper_text(b).len() == b.len());
    if same_measurement(a, b) {
        assert forall|i: int| 0 <= i < a.len() implies {
            ||| (#[trigger] a[i]) == b[i]
            ||| 97 <= a[i] as u32 <= 122 && b[i] as u32 == a[i] as u32 - 32
            ||| 97 <= b[i] as u32 <= 122 && a[i] as u32 == b[i] as u32 - 32
        } by {
            assert(upper_text(a)[i] == upper_text(b)[i]);
        }
    }
    if equal_but_for_case(a, b) {
        assert forall|i: int| 0 <= i < a.len() implies upper_text(a)[i] == upper_text(b)[i] by {
            assert(a[i] == a[i]);
        }
        assert(upper_text(a) =~= upper_text(b));
    }
}

/// Whether a character is the hexadecimal digit of a number, in either case.
pub open spec fn is_digit_of(c: char, n: int) -> bool {
    ||| 0 <= n <= 9 && c as u32 == 48 + n
    ||| 10 <= n <= 15 && c as u32 == 55 + n
    ||| 10 <= n <= 15 && c as u32 == 87 + n
}

/// Whether a text stands for bytes in hexadecimal: of each byte first the digit of its
/// upper half, then that of its lower half, in either case.
pub open spec fn stands_for(text: Seq<char>, bytes: Seq<u8>) -> bool {
    &&& text.len() == 2 * bytes.len()
    &&& forall|i: int|
        0 <= i < bytes.len() ==> is_digit_of(text[2 * i], (#[trigger] bytes[i]) as int / 16)
            && is_digit_of(text[2 * i + 1], bytes[i] as int % 16)
}

proof fn lemma_digit_of(c: char, n: int)
    ensures
        hex_digit_value(c) == Some(n) <==> is_digit_of(c, n),
{
}

/// A text is read as the bytes that it stands for in hexadecimal, and no other text is
/// read at all.
pub proof fn hexadecimal_is_read_digit_by_digit(text: Seq<char>, bytes: Seq<u8>)
    ensures
        is_hex(text) && hex_bytes(text) == bytes <==> stands_for(text, bytes),
        is_hex(text) ==> stands_for(text, hex_bytes(text)),
{
    if is_hex(text) {
        assert forall|i: int| 0 <= i < hex_bytes(text).len() implies is_digit_of(
            text[2 * i],
            (#[trigger] hex_bytes(text)[i]) as int / 16,
        ) && is_digit_of(text[2 * i + 1], hex_bytes(text)[i] as int % 16) by {
            assert(hex_digit_value(text[2 * i]) is Some);
            assert(hex_digit_value(text[2 * i + 1]) is Some);
            let high = hex_digit_value(text[2 * i])->0;
            let low = hex_digit_value(text[2 * i + 1])->0;
            lemma_digit_of(text[2 * i], high);
            lemma_digit_of(text[2 * i + 1], low);
            assert(hex_bytes(text)[i] == 16 * high + low);
        }
    }
    if stands_for(text, bytes) {
        assert forall|j: int| 0 <= j < text.len() implies hex_digit_value(
            #[trigger] text[j],
        ) is Some by {
            let i = j / 2;
            let b = bytes[i] as int;
            assert(j == 2 * i || j == 2 * i + 1);
            lemma_digit_of(text[2 * i], b / 16);
            lemma_digit_of(text[2 * i + 1], b % 16);
        }
        assert forall|i: int| 0 <= i < bytes.len() implies hex_bytes(text)[i] == bytes[i] by {
            let b = bytes[i] as int;
            lemma_digit_of(text[2 * i], b / 16);
            lemma_digit_of(text[2 * i + 1], b % 16);
            assert(b == 16 * (b / 16) + b % 16);
        }
        assert(hex_bytes(text) =~= bytes);
    }
}

proof fn lemma_upper_digit(n: int)
    requires
        0 <= n < 16,
    ensures
        is_digit_of(upper_hex_digit(n), n),
        upper_hex_digit(n) as u32 <= 70,
{
}

/// Bytes are written in hexadecimal digit by digit, letters in upper case.
pub proof fn hexadecimal_is_written_digit_by_digit(bytes: Seq<u8>)
    ensures
        stands_for(hex_text(bytes), bytes),
        forall|i: int|
            0 <= i < hex_text(bytes).len() ==> (#[trigger] hex_text(bytes)[i]) as u32 <= 70,
{
    let text = hex_text(bytes);
    assert forall|i: int| 0 <= i < bytes.len() implies is_digit_of(
        text[2 * i],
        (#[trigger] bytes[i]) as int / 16,
    ) && is_digit_of(text[2 * i + 1], bytes[i] as int % 16) by {
        let b = bytes[i] as int;
        lemma_upper_digit(b / 16);
        lemma_upper_digit(b % 16);
        assert((2 * i) % 2 == 0 && (2 * i) / 2 == i);
        assert((2 * i + 1) % 2 == 1 && (2 * i + 1) / 2 == i);
        assert(text[2 * i] == upper_hex_digit(b / 16));
        assert(text[2 * i + 1] == upper_hex_digit(b % 16));
    }
    assert forall|i: int| 0 <= i < text.len() implies (#[trigger] text[i]) as u32 <= 70 by {
        let b = bytes[i / 2] as int;
        lemma_upper_digit(b / 16);
        lemma_upper_digit(b % 16);
    }
}

/// Whether two byte strings agree before a position, and the first ends there or has the
/// smaller byte there.
pub open spec fn comes_first_at(x: Seq<u8>, y: Seq<u8>, k: int) -> bool {
    &&& 0 <= k <= x.len()
    &&& k < y.len()
    &&& forall|j: int| 0 <= j < k ==> x[j] == y[j]
    &&& k < x.len() ==> x[k] < y[k]
}

proof fn lemma_comes_first(x: Seq<u8>, y: Seq<u8>, i: int, k: int)
    requires
        0 <= i <= k,
        comes_first_at(x, y, k),
    ensures
        bytes_less_from(x, y, i),
    decreases k - i,
{
    if i < k {
        lemma_comes_first(x, y, i + 1, k);
    }
}

proof fn lemma_first_place(x: Seq<u8>, y: Seq<u8>, i: int) -> (k: int)
    requires
        0 <= i <= x.len(),
        i <= y.len(),
        forall|j: int| 0 <= j < i ==> x[j] == y[j],
        bytes_less_from(x, y, i),
    ensures
        comes_first_at(x, y, k),
    decreases y.len() - i,
{
    if i < x.len() && x[i] == y[i] {
        lemma_first_place(x, y, i + 1)
    } else {
        i
    }
}

/// A text comes before another exactly where their UTF-8 bytes agree up to some place and
/// it ends there, or has the smaller byte there.
pub proof fn texts_are_ordered_by_their_first_difference(a: Seq<char>, b: Seq<char>)
    ensures
        text_less(a, b) <==> exists|k: int| comes_first_at(encode_utf8(a), encode_utf8(b), k),
{
    let x = encode_utf8(a);
    let y = encode_utf8(b);
    if text_less(a, b) {
        let k = lemma_first_place(x, y, 0);
        assert(comes_first_at(x, y, k));
    }
    if exists|k: int| comes_first_at(x, y, k) {
        let k = choose|k: int| comes_first_at(x, y, k);
        lemma_comes_first(x, y, 0, k);
    }
}

/// Digests are computed of up to 2305843009213693951 bytes, whose bits can be counted in
/// 64 bits.
pub proof fn digests_are_computed_up_to_the_limit(data: Seq<u8>)
    ensures
        digestible(data) <==> data.len() <= 0x1fff_ffff_ffff_ffff,
{
}

} // verus!
