//! How canonical text is written: character by character, item by item, member by member.
use vstd::prelude::*;
use vstd::utf8::encode_utf8;

use crate::bytes::{text_less, text_order_is_strict_total};
use crate::canonical::{
    canonical_bytes, canonical_text, escaped_char, escaped_text, is_name_order, items_text,
    lemma_name_order, lower_hex_digit, members_text, name_order, separator, string_literal,
};
use crate::canonical_laws::lemma_name_order_exists;
use crate::json::JsonView;
use crate::text_laws::{comes_first_at, texts_are_ordered_by_their_first_difference};

verus! {

/// Whether a character must be escaped: the quote, the backslash and the control characters.
pub open spec fn must_be_escaped(c: char) -> bool {
    c as u32 == 34 || c as u32 == 92 || (c as u32) < 32
}

/// How a character that must be escaped is written: by a backslash and a letter where there is
/// one, and else by `\u00` and its code in two hexadecimal digits in lower case.
pub open spec fn is_escape_of(piece: Seq<char>, c: char) -> bool {
    let code = c as u32;
    if code == 34 {
        piece == seq!['\\', '"']
    } else if code == 92 {
        piece == seq!['\\', '\\']
    } else if code == 8 {
        piece == seq!['\\', 'b']
    } else if code == 9 {
        piece == seq!['\\', 't']
    } else if code == 10 {
        piece == seq!['\\', 'n']
    } else if code == 12 {
        piece == seq!['\\', 'f']
    } else if code == 13 {
        piece == seq!['\\', 'r']
    } else {
        let low = code as int % 16;
        &&& piece.len() == 6
        &&& piece.take(4) == seq!['\\', 'u', '0', '0']
        &&& piece[4] as u32 == 48 + code as int / 16
        &&& piece[5] as u32 == if low < 10 {
            48 + low
        } else {
            87 + low
        }
    }
}

/// A text is written between quotes, character by character; a character is escaped only where
/// it must be.
pub proof fn texts_are_written_character_by_character(a: Seq<char>, b: Seq<char>, c: char)
    ensures
        escaped_text(Seq::empty()) == Seq::<char>::empty(),
        escaped_text(a + b) == escaped_text(a) + escaped_text(b),
        !must_be_escaped(c) ==> escaped_text(seq![c]) == seq![c],
        must_be_escaped(c) ==> is_escape_of(escaped_text(seq![c]), c),
        string_literal(a).len() == escaped_text(a).len() + 2,
        string_literal(a).first() == '"',
        string_literal(a).last() == '"',
        string_literal(a).subrange(1, string_literal(a).len() - 1) == escaped_text(a),
{
    lemma_escaped_concat(a, b);
    let one = seq![c];
    assert(one.drop_first() =~= Seq::<char>::empty());
    assert(escaped_text(one.drop_first()) =~= Seq::<char>::empty());
    assert(escaped_text(one) =~= escaped_char(c));
    assert(string_literal(a).subrange(1, string_literal(a).len() - 1) =~= escaped_text(a));
    if must_be_escaped(c) && escaped_char(c).len() == 6 {
        let piece = escaped_char(c);
        let code = c as u32 as int;
        assert(piece.take(4) =~= seq!['\\', 'u', '0', '0']);
        assert(0 <= code / 16 <= 1 && 0 <= code % 16 < 16);
        assert(piece[4] == lower_hex_digit(code / 16));
        assert(piece[5] == lower_hex_digit(code % 16));
    }
}

proof fn lemma_escaped_concat(a: Seq<char>, b: Seq<char>)
    ensures
        escaped_text(a + b) == escaped_text(a) + escaped_text(b),
    decreases a.len(),
{
    if a.len() == 0 {
        assert(a + b =~= b);
        assert(escaped_text(a) + escaped_text(b) =~= escaped_text(b));
    } else {
        lemma_escaped_concat(a.drop_first(), b);
        assert((a + b).drop_first() =~= a.drop_first() + b);
        assert(escaped_text(a + b) =~= escaped_text(a) + escaped_text(b));
    }
}

/// Scalars are written as they are: the words of JSON, the text of a number, and a text between
/// quotes. Canonical bytes are canonical text in UTF-8.
pub proof fn scalars_are_written_as_they_are(number: Seq<char>, text: Seq<char>, d: JsonView)
    ensures
        canonical_text(JsonView::Null) == seq!['n', 'u', 'l', 'l'],
        canonical_text(JsonView::Bool(true)) == seq!['t', 'r', 'u', 'e'],
        canonical_text(JsonView::Bool(false)) == seq!['f', 'a', 'l', 's', 'e'],
        canonical_text(JsonView::Number(number)) == number,
        canonical_text(JsonView::Text(text)) == string_literal(text),
        canonical_bytes(d) == encode_utf8(canonical_text(d)),
{
}

proof fn lemma_items_pushed(items: Seq<JsonView>, last: JsonView, i: int)
    requires
        0 <= i <= items.len(),
    ensures
        items_text(items.push(last), i) == items_text(items, i) + separator(items.len() as int)
            + canonical_text(last),
    decreases items.len() - i,
{
    let longer = items.push(last);
    if i < items.len() {
        lemma_items_pushed(items, last, i + 1);
        assert(longer[i] == items[i]);
        assert(items_text(longer, i) =~= items_text(items, i) + separator(items.len() as int)
            + canonical_text(last));
    } else {
        assert(items_text(longer, i + 1) =~= Seq::<char>::empty());
        assert(items_text(items, i) =~= Seq::<char>::empty());
        assert(items_text(longer, i) =~= items_text(items, i) + separator(items.len() as int)
            + canonical_text(last));
    }
}

/// Arrays are written item by item, in their order, with a comma between two items and nothing
/// else: to add an item at the end adds its text before the closing bracket.
pub proof fn arrays_are_written_item_by_item(items: Seq<JsonView>, last: JsonView)
    ensures
        canonical_text(JsonView::Array(Seq::empty())) == seq!['[', ']'],
        canonical_text(JsonView::Array(seq![last])) == seq!['['] + canonical_text(last) + seq![']'],
        items.len() > 0 ==> canonical_text(JsonView::Array(items.push(last))) == canonical_text(
            JsonView::Array(items),
        ).drop_last() + seq![','] + canonical_text(last) + seq![']'],
{
    assert(items_text(Seq::<JsonView>::empty(), 0) =~= Seq::<char>::empty());
    assert(canonical_text(JsonView::Array(Seq::empty())) =~= seq!['[', ']']);
    lemma_items_pushed(Seq::empty(), last, 0);
    assert(Seq::<JsonView>::empty().push(last) =~= seq![last]);
    assert(canonical_text(JsonView::Array(seq![last])) =~= seq!['['] + canonical_text(last)
        + seq![']']);
    if items.len() > 0 {
        lemma_items_pushed(items, last, 0);
        assert(canonical_text(JsonView::Array(items)).drop_last() =~= seq!['['] + items_text(
            items,
            0,
        ));
        assert(canonical_text(JsonView::Array(items.push(last))) =~= canonical_text(
            JsonView::Array(items),
        ).drop_last() + seq![','] + canonical_text(last) + seq![']']);
    }
}

/// Whether a name comes behind all names of an object: at the first place where the UTF-8
/// bytes differ, the other ends or has the smaller byte.
pub open spec fn comes_last(name: Seq<char>, members: Map<Seq<char>, JsonView>) -> bool {
    forall|other: Seq<char>| #[trigger]
        members.dom().contains(other) ==> exists|k: int|
            comes_first_at(encode_utf8(other), encode_utf8(name), k)
}

proof fn lemma_members_pushed(
    members: Map<Seq<char>, JsonView>,
    names: Seq<Seq<char>>,
    name: Seq<char>,
    value: JsonView,
    i: int,
)
    requires
        members.dom().finite(),
        !members.dom().contains(name),
        forall|k: int| 0 <= k < names.len() ==> members.dom().contains(#[trigger] names[k]),
        0 <= i <= names.len(),
    ensures
        members_text(members.insert(name, value), names.push(name), i) == members_text(
            members,
            names,
            i,
        ) + separator(names.len() as int) + string_literal(name) + seq![':'] + canonical_text(
            value,
        ),
    decreases names.len() - i,
{
    let more = members.insert(name, value);
    let longer = names.push(name);
    let tail = separator(names.len() as int) + string_literal(name) + seq![':'] + canonical_text(
        value,
    );
    if i < names.len() {
        lemma_members_pushed(members, names, name, value, i + 1);
        assert(members.dom().contains(names[i]));
        assert(longer[i] == names[i]);
        assert(more.dom().contains(names[i]) && more[names[i]] == members[names[i]]);
        assert(members_text(more, longer, i) =~= members_text(members, names, i) + separator(
            names.len() as int,
        ) + string_literal(name) + seq![':'] + canonical_text(value));
    } else {
        assert(longer[i] == name);
        assert(members_text(more, longer, i + 1) =~= Seq::<char>::empty());
        assert(members_text(members, names, i) =~= Seq::<char>::empty());
        assert(members_text(more, longer, i) =~= members_text(members, names, i) + separator(
            names.len() as int,
        ) + string_literal(name) + seq![':'] + canonical_text(value));
    }
}

proof fn lemma_order_pushed(all: Set<Seq<char>>, name: Seq<char>)
    requires
        all.finite(),
        forall|other: Seq<char>| #[trigger] all.contains(other) ==> text_less(other, name),
    ensures
        name_order(all.insert(name)) == name_order(all).push(name),
        is_name_order(name_order(all), all),
{
    let names = name_order(all);
    let longer = names.push(name);
    lemma_name_order_exists(all);
    assert forall|i: int, j: int| 0 <= i < j < longer.len() implies text_less(
        longer[i],
        longer[j],
    ) by {
        if j == names.len() {
            assert(names.contains(names[i]));
            assert(all.contains(names[i]));
        }
    }
    assert forall|x: Seq<char>| #[trigger] longer.contains(x) <==> all.insert(name).contains(x) by {
        if longer.contains(x) {
            let i = choose|i: int| 0 <= i < longer.len() && longer[i] == x;
            if i < names.len() {
                assert(names[i] == x);
                assert(names.contains(x));
            }
        }
        if all.contains(x) {
            assert(names.contains(x));
            let i = choose|i: int| 0 <= i < names.len() && names[i] == x;
            assert(longer[i] == x);
        } else if x == name {
            assert(longer[names.len() as int] == x);
        }
    }
    lemma_name_order(longer, all.insert(name));
}

/// Objects are written member by member, in ascending order of their names, with a comma
/// between two members and a colon between name and value, and nothing else: to add a member
/// whose name comes behind all others adds its text before the closing brace.
pub proof fn objects_are_written_member_by_member(
    members: Map<Seq<char>, JsonView>,
    name: Seq<char>,
    value: JsonView,
)
    requires
        members.dom().finite(),
        comes_last(name, members),
    ensures
        canonical_text(JsonView::Object(Map::empty())) == seq!['{', '}'],
        members.dom() == Set::<Seq<char>>::empty() ==> canonical_text(
            JsonView::Object(members.insert(name, value)),
        ) == seq!['{'] + string_literal(name) + seq![':'] + canonical_text(value) + seq!['}'],
        members.dom() != Set::<Seq<char>>::empty() ==> canonical_text(
            JsonView::Object(members.insert(name, value)),
        ) == canonical_text(JsonView::Object(members)).drop_last() + seq![','] + string_literal(
            name,
        ) + seq![':'] + canonical_text(value) + seq!['}'],
{
    let none = Set::<Seq<char>>::empty();
    lemma_name_order_exists(none);
    let no_names = name_order(none);
    if no_names.len() > 0 {
        assert(no_names.contains(no_names[0]));
    }
    assert(Map::<Seq<char>, JsonView>::empty().dom() =~= none);
    assert(members_text(Map::empty(), no_names, 0) =~= Seq::<char>::empty());
    assert(canonical_text(JsonView::Object(Map::empty())) =~= seq!['{', '}']);
    assert forall|other: Seq<char>| #[trigger] members.dom().contains(other) implies text_less(
        other,
        name,
    ) by {
        texts_are_ordered_by_their_first_difference(other, name);
    }
    text_order_is_strict_total(name, name, name);
    assert(!members.dom().contains(name));
    lemma_order_pushed(members.dom(), name);
    let names = name_order(members.dom());
    let more = members.insert(name, value);
    assert(more.dom() =~= members.dom().insert(name));
    assert forall|k: int| 0 <= k < names.len() implies members.dom().contains(
        #[trigger] names[k],
    ) by {
        assert(names.contains(names[k]));
    }
    lemma_members_pushed(members, names, name, value, 0);
    if members.dom() == none {
        assert(names.len() == 0) by {
            if names.len() > 0 {
                assert(members.dom().contains(names[0]));
            }
        }
        assert(members_text(members, names, 0) =~= Seq::<char>::empty());
        assert(canonical_text(JsonView::Object(more)) =~= seq!['{'] + string_literal(name)
            + seq![':'] + canonical_text(value) + seq!['}']);
    } else {
        assert(names.len() > 0) by {
            if names.len() == 0 {
                assert forall|x: Seq<char>| !members.dom().contains(x) by {
                    assert(!names.contains(x));
                }
                assert(members.dom() =~= none);
            }
        }
        assert(canonical_text(JsonView::Object(members)).drop_last() =~= seq!['{'] + members_text(
            members,
            names,
            0,
        ));
        assert(canonical_text(JsonView::Object(more)) =~= canonical_text(
            JsonView::Object(members),
        ).drop_last() + seq![','] + string_literal(name) + seq![':'] + canonical_text(value)
            + seq!['}']);
    }
}

} // verus!
