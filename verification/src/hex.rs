//! Bytes in hexadecimal.
use vstd::prelude::*;
use vstd::string::is_ascii_spec_bytes;

use crate::error::PolicyError;

verus! {

/// The hexadecimal digit of a number below sixteen, in upper case.
pub open spec fn upper_hex_digit(n: int) -> char {
    seq![
        '0', '1', '2', '3', '4', '5', '6', '7', '8', '9', 'A', 'B', 'C', 'D', 'E', 'F',
    ][n]
}

/// Bytes in hexadecimal: two digits for each, in upper case.
pub open spec fn hex_text(bytes: Seq<u8>) -> Seq<char> {
    Seq::new(
        2 * bytes.len(),
        |i: int|
            upper_hex_digit(
                if i % 2 == 0 {
                    bytes[i / 2] as int / 16
                } else {
                    bytes[i / 2] as int % 16
                },
            ),
    )
}

/// The value of a hexadecimal digit, in either case.
pub open spec fn hex_digit_value(c: char) -> Option<int> {
    if '0' <= c <= '9' {
        Some(c as u8 - 0x30)
    } else if 'A' <= c <= 'F' {
        Some(c as u8 - 0x41 + 10)
    } else if 'a' <= c <= 'f' {
        Some(c as u8 - 0x61 + 10)
    } else {
        None
    }
}

/// Whether a text is bytes in hexadecimal: an even number of digits, in either case.
pub open spec fn is_hex(text: Seq<char>) -> bool {
    &&& text.len() % 2 == 0
    &&& forall|i: int| 0 <= i < text.len() ==> hex_digit_value(#[trigger] text[i]) is Some
}

/// The bytes that a text in hexadecimal stands for.
pub open spec fn hex_bytes(text: Seq<char>) -> Seq<u8> {
    Seq::new(
        text.len() / 2,
        |i: int|
            (16 * hex_digit_value(text[2 * i])->0 + hex_digit_value(text[2 * i + 1])->0) as u8,
    )
}

/// Appends a hexadecimal digit.
fn push_hex_digit(out: &mut String, n: u8)
    requires
        n < 16,
    ensures
        final(out)@ == old(out)@.push(upper_hex_digit(n as int)),
{
    proof {
        reveal_strlit("0");
        reveal_strlit("1");
        reveal_strlit("2");
        reveal_strlit("3");
        reveal_strlit("4");
        reveal_strlit("5");
        reveal_strlit("6");
        reveal_strlit("7");
        reveal_strlit("8");
        reveal_strlit("9");
        reveal_strlit("A");
        reveal_strlit("B");
        reveal_strlit("C");
        reveal_strlit("D");
        reveal_strlit("E");
        reveal_strlit("F");
    }
    let digit = match n {
        0 => "0",
        1 => "1",
        2 => "2",
        3 => "3",
        4 => "4",
        5 => "5",
        6 => "6",
        7 => "7",
        8 => "8",
        9 => "9",
        10 => "A",
        11 => "B",
        12 => "C",
        13 => "D",
        14 => "E",
        _ => "F",
    };
    let ghost before = out@;
    out.append(digit);
    assert(digit@ =~= seq![upper_hex_digit(n as int)]);
    assert(out@ =~= before.push(upper_hex_digit(n as int)));
}

/// Bytes in hexadecimal: two digits for each, in upper case.
pub fn bytes_to_hex_string(bytes: &[u8]) -> (r: String)
    ensures
        r@ == hex_text(bytes@),
{
    let mut out = String::new();
    let mut i: usize = 0;
    while i < bytes.len()
        invariant
            i <= bytes@.len(),
            out@ == hex_text(bytes@.take(i as int)),
        decreases bytes@.len() - i,
    {
        push_hex_digit(&mut out, bytes[i] / 16);
        push_hex_digit(&mut out, bytes[i] % 16);
        i += 1;
        assert(out@ =~= hex_text(bytes@.take(i as int)));
    }
    assert(bytes@.take(bytes@.len() as int) =~= bytes@);
    out
}

/// The value of the hexadecimal digit with an ASCII code.
fn digit_value(code: u8) -> (r: Option<u8>)
    ensures
        match r {
            Some(v) => v < 16 && hex_digit_value(code as char) == Some(v as int),
            None => hex_digit_value(code as char) is None,
        },
{
    if 0x30 <= code && code <= 0x39 {
        Some(code - 0x30)
    } else if 0x41 <= code && code <= 0x46 {
        Some(code - 0x41 + 10)
    } else if 0x61 <= code && code <= 0x66 {
        Some(code - 0x61 + 10)
    } else {
        None
    }
}

/// The bytes that a text in hexadecimal stands for. It fails on any other text.
pub fn hex_string_to_bytes(hex: &str) -> (r: Result<Vec<u8>, PolicyError>)
    ensures
        match r {
            Ok(bytes) => is_hex(hex@) && bytes@ == hex_bytes(hex@),
            Err(e) => !is_hex(hex@) && e == PolicyError::InvalidParameter,
        },
{
    if !hex.is_ascii() {
        proof {
            let i = choose|i: int| 0 <= i < hex@.len() && !('\0' <= #[trigger] hex@[i] <= '\u{7f}');
            assert(hex_digit_value(hex@[i]) is None);
        }
        return Err(PolicyError::InvalidParameter);
    }
    let codes = hex.as_bytes();
    proof {
        is_ascii_spec_bytes(hex);
        assert forall|i: int| 0 <= i < hex@.len() implies codes@[i] as char
            == #[trigger] hex@[i] by {}
    }
    if codes.len() % 2 != 0 {
        return Err(PolicyError::InvalidParameter);
    }
    let mut out: Vec<u8> = Vec::new();
    let mut i: usize = 0;
    while i < codes.len()
        invariant
            i <= codes@.len(),
            i % 2 == 0,
            codes@.len() % 2 == 0,
            codes@.len() == hex@.len(),
            forall|j: int| 0 <= j < hex@.len() ==> codes@[j] as char == #[trigger] hex@[j],
            forall|j: int| 0 <= j < i ==> hex_digit_value(#[trigger] hex@[j]) is Some,
            out@ == hex_bytes(hex@.take(i as int)),
        decreases codes@.len() - i,
    {
        assert(codes@[i as int] as char == hex@[i as int]);
        assert(codes@[i + 1] as char == hex@[i + 1]);
        let high = match digit_value(codes[i]) {
            Some(v) => v,
            None => return Err(PolicyError::InvalidParameter),
        };
        let low = match digit_value(codes[i + 1]) {
            Some(v) => v,
            None => return Err(PolicyError::InvalidParameter),
        };
        out.push(high * 16 + low);
        i += 2;
        assert(out@ =~= hex_bytes(hex@.take(i as int)));
    }
    assert(hex@.take(hex@.len() as int) =~= hex@);
    Ok(out)
}

/// Reading back bytes that were written in hexadecimal gives the same bytes, so
/// different bytes are written differently.
pub proof fn hex_reads_back(bytes: Seq<u8>)
    ensures
        is_hex(hex_text(bytes)),
        hex_bytes(hex_text(bytes)) == bytes,
{
    let text = hex_text(bytes);
    assert forall|i: int| 0 <= i < text.len() implies hex_digit_value(
        #[trigger] text[i],
    ) is Some by {}
    assert forall|i: int| 0 <= i < bytes.len() implies hex_bytes(text)[i]
        == #[trigger] bytes[i] by {
        let b = bytes[i] as int;
        assert(text[2 * i] == upper_hex_digit(b / 16));
        assert(text[2 * i + 1] == upper_hex_digit(b % 16));
    }
    assert(hex_bytes(text) =~= bytes);
}

} // verus!
