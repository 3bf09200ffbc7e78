//! The grammar of JSON: which text reads as which document.
use vstd::prelude::*;

use crate::hex::hex_digit_value;
use crate::json::{is_number_text, JsonView};

verus! {

/// White space that can stand between the parts of a text.
pub open spec fn is_blank(text: Seq<char>) -> bool {
    forall|i: int|
        0 <= i < text.len() ==> (#[trigger] text[i]) == ' ' || text[i] == '\t' || text[i] == '\n'
            || text[i] == '\r'
}

/// Whether a text is a core with white space before and after it.
pub open spec fn is_surrounded(
    text: Seq<char>,
    before: Seq<char>,
    core: Seq<char>,
    after: Seq<char>,
) -> bool {
    text == before + core + after && is_blank(before) && is_blank(after)
}

/// Whether a text stands between two brackets.
pub open spec fn is_bracketed(text: Seq<char>, open: char, close: char) -> bool {
    text.len() >= 2 && text.first() == open && text.last() == close
}

/// What stands between the brackets of a text.
pub open spec fn inside(text: Seq<char>) -> Seq<char> {
    text.subrange(1, text.len() - 1)
}

/// The character that an escape of one letter stands for.
pub open spec fn short_escape(letter: char) -> Option<char> {
    if letter == '"' || letter == '\\' || letter == '/' {
        Some(letter)
    } else if letter == 'b' {
        Some('\u{8}')
    } else if letter == 'f' {
        Some('\u{c}')
    } else if letter == 'n' {
        Some('\n')
    } else if letter == 'r' {
        Some('\r')
    } else if letter == 't' {
        Some('\t')
    } else {
        None
    }
}

/// Whether an escape by a code, `\u` and four hexadecimal digits, stands in a text at a
/// position, with the given code.
pub open spec fn is_code_escape(text: Seq<char>, at: int, code: int) -> bool {
    &&& at + 6 <= text.len()
    &&& text[at] == '\\'
    &&& text[at + 1] == 'u'
    &&& forall|i: int| at + 2 <= i < at + 6 ==> hex_digit_value(#[trigger] text[i]) is Some
    &&& code == 0x1000 * hex_digit_value(text[at + 2])->0 + 0x100 * hex_digit_value(
        text[at + 3],
    )->0 + 0x10 * hex_digit_value(text[at + 4])->0 + hex_digit_value(text[at + 5])->0
}

/// Whether two escapes by codes stand for a character together: a high and a low
/// surrogate.
pub open spec fn is_surrogate_pair(piece: Seq<char>, high: int, low: int, c: char) -> bool {
    &&& piece.len() == 12
    &&& is_code_escape(piece, 0, high)
    &&& is_code_escape(piece, 6, low)
    &&& 0xD800 <= high <= 0xDBFF
    &&& 0xDC00 <= low <= 0xDFFF
    &&& c as u32 == 0x10000 + 0x400 * (high - 0xD800) + (low - 0xDC00)
}

/// Whether a piece of a string literal reads as a character: the character itself, where
/// it need not be escaped, or an escape of it.
pub open spec fn char_reads_as(piece: Seq<char>, c: char) -> bool {
    ||| piece == seq![c] && c as u32 >= 0x20 && c != '"' && c != '\\'
    ||| piece.len() == 2 && piece[0] == '\\' && short_escape(piece[1]) == Some(c)
    ||| piece.len() == 6 && is_code_escape(piece, 0, c as u32 as int)
    ||| exists|high: int, low: int| is_surrogate_pair(piece, high, low, c)
}

/// Whether what stands between the quotes of a string literal reads as a text.
pub open spec fn chars_read_as(body: Seq<char>, text: Seq<char>) -> bool
    decreases text.len(),
{
    if text.len() == 0 {
        body.len() == 0
    } else {
        exists|k: int|
            0 < k <= body.len() && char_reads_as(body.take(k), text[0]) && chars_read_as(
                #[trigger] body.skip(k),
                text.drop_first(),
            )
    }
}

/// Whether a string literal reads as a text.
pub open spec fn literal_reads_as(literal: Seq<char>, text: Seq<char>) -> bool {
    is_bracketed(literal, '"', '"') && chars_read_as(inside(literal), text)
}

/// Parts with commas between them.
pub open spec fn listed(parts: Seq<Seq<char>>) -> Seq<char>
    decreases parts.len(),
{
    if parts.len() == 0 {
        Seq::empty()
    } else if parts.len() == 1 {
        parts[0]
    } else {
        parts[0] + seq![','] + listed(parts.drop_first())
    }
}

/// Whether a text is a name, with white space around it.
pub open spec fn name_reads_as(text: Seq<char>, name: Seq<char>) -> bool {
    exists|before: Seq<char>, core: Seq<char>, after: Seq<char>| #[trigger]
        is_surrounded(text, before, core, after) && literal_reads_as(core, name)
}

/// Whether `names` lists the names `all`, each once, in any order.
pub open spec fn lists_names(names: Seq<Seq<char>>, all: Set<Seq<char>>) -> bool {
    &&& names.no_duplicates()
    &&& forall|name: Seq<char>| #[trigger] names.contains(name) <==> all.contains(name)
}

/// Whether a text is a list of members with these names, written as `keys`, and with
/// `values` behind the colons.
pub open spec fn is_member_list(
    text: Seq<char>,
    names: Seq<Seq<char>>,
    keys: Seq<Seq<char>>,
    values: Seq<Seq<char>>,
) -> bool {
    &&& keys.len() == names.len()
    &&& values.len() == names.len()
    &&& text == listed(Seq::new(names.len(), |i: int| keys[i] + seq![':'] + values[i]))
    &&& forall|i: int| 0 <= i < names.len() ==> name_reads_as(keys[i], #[trigger] names[i])
}

/// Whether a text without white space around it reads as a document.
pub open spec fn core_reads_as(text: Seq<char>, document: JsonView) -> bool
    decreases document, 0int,
{
    match document {
        JsonView::Null => text == seq!['n', 'u', 'l', 'l'],
        JsonView::Bool(b) => text == if b {
            seq!['t', 'r', 'u', 'e']
        } else {
            seq!['f', 'a', 'l', 's', 'e']
        },
        JsonView::Number(number) => text == number && is_number_text(number),
        JsonView::Text(content) => literal_reads_as(text, content),
        JsonView::Array(items) => is_bracketed(text, '[', ']') && if items.len() == 0 {
            is_blank(inside(text))
        } else {
            exists|parts: Seq<Seq<char>>|
                inside(text) == #[trigger] listed(parts) && parts.len() == items.len()
                    && forall|i: int|
                    0 <= i < items.len() ==> reads_as(parts[i], #[trigger] items[i])
        },
        JsonView::Object(members) => is_bracketed(text, '{', '}') && if members.dom()
            == Set::<Seq<char>>::empty() {
            is_blank(inside(text))
        } else {
            exists|names: Seq<Seq<char>>, keys: Seq<Seq<char>>, values: Seq<Seq<char>>|
                #[trigger] is_member_list(inside(text), names, keys, values) && lists_names(
                    names,
                    members.dom(),
                ) && forall|i: int|
                    0 <= i < names.len() && members.dom().finite() && members.dom().contains(
                        names[i],
                    ) ==> reads_as(values[i], members[#[trigger] names[i]])
        },
    }
}

/// Whether a text reads as a document by the grammar of JSON: white space can stand
/// around every value, characters can be escaped, and members come in any order, each
/// name once.
pub open spec fn reads_as(text: Seq<char>, document: JsonView) -> bool
    decreases document, 1int,
{
    exists|before: Seq<char>, core: Seq<char>, after: Seq<char>| #[trigger]
        is_surrounded(text, before, core, after) && core_reads_as(core, document)
}

} // verus!
