//! Canonical text reads as the document it was written from; canonical bytes tell
//! documents apart, and nothing else.
use vstd::prelude::*;
use vstd::utf8::{decode_utf8, encode_utf8_decode_utf8};

use crate::bytes::{lemma_encode_utf8_injective, text_less, text_order_is_strict_total};
use crate::canonical::{
    canonical_bytes, canonical_text, escaped_char, escaped_text, is_name_order, items_text,
    lemma_name_order, lower_hex_digit, members_text, name_order, separator, string_literal,
};
use crate::hex::hex_digit_value;
use crate::json::JsonView;
use crate::json_grammar::{
    char_reads_as, chars_read_as, core_reads_as, inside, is_code_escape, is_member_list,
    is_surrounded, listed, lists_names, literal_reads_as, name_reads_as, reads_as, short_escape,
};
use crate::json_grammar_laws::{
    is_number_char, lemma_number_chars, text_reads_as_one_document,
};

verus! {

/// The position where `name` goes into ascending names that lack it.
proof fn lemma_place(names: Seq<Seq<char>>, name: Seq<char>) -> (p: int)
    requires
        forall|i: int, j: int| 0 <= i < j < names.len() ==> text_less(names[i], names[j]),
        !names.contains(name),
    ensures
        0 <= p <= names.len(),
        forall|i: int| 0 <= i < p ==> text_less(#[trigger] names[i], name),
        forall|i: int| p <= i < names.len() ==> text_less(name, #[trigger] names[i]),
    decreases names.len(),
{
    if names.len() == 0 {
        0
    } else {
        let last = names.last();
        assert(names.contains(last));
        text_order_is_strict_total(last, name, last);
        if text_less(last, name) {
            assert forall|i: int| 0 <= i < names.len() implies text_less(
                #[trigger] names[i],
                name,
            ) by {
                text_order_is_strict_total(names[i], last, name);
            }
            names.len() as int
        } else {
            let front = names.drop_last();
            assert forall|x: Seq<char>| front.contains(x) implies names.contains(x) by {
                let i = choose|i: int| 0 <= i < front.len() && front[i] == x;
                assert(names[i] == x);
            }
            let p = lemma_place(front, name);
            assert forall|i: int| 0 <= i < p implies text_less(#[trigger] names[i], name) by {
                assert(front[i] == names[i]);
            }
            assert forall|i: int| p <= i < names.len() implies text_less(
                name,
                #[trigger] names[i],
            ) by {
                if i < front.len() {
                    assert(front[i] == names[i]);
                }
            }
            p
        }
    }
}

/// Finitely many names have an ascending order.
pub proof fn lemma_name_order_exists(all: Set<Seq<char>>)
    requires
        all.finite(),
    ensures
        is_name_order(name_order(all), all),
    decreases all.len(),
{
    if all.len() == 0 {
        assert(all =~= Set::empty());
        assert(is_name_order(Seq::empty(), all));
    } else {
        let name = all.choose();
        let rest = all.remove(name);
        lemma_name_order_exists(rest);
        let names = name_order(rest);
        let p = lemma_place(names, name);
        let longer = names.insert(p, name);
        assert forall|i: int, j: int| 0 <= i < j < longer.len() implies text_less(
            longer[i],
            longer[j],
        ) by {
            let x = if i < p {
                i
            } else {
                i - 1
            };
            let y = if j < p {
                j
            } else {
                j - 1
            };
            if i != p {
                assert(longer[i] == names[x]);
            }
            if j != p {
                assert(longer[j] == names[y]);
            }
        }
        assert forall|x: Seq<char>| #[trigger] longer.contains(x) <==> all.contains(x) by {
            if longer.contains(x) {
                let i = choose|i: int| 0 <= i < longer.len() && longer[i] == x;
                if i < p {
                    assert(names[i] == x);
                    assert(names.contains(x));
                } else if i > p {
                    assert(names[i - 1] == x);
                    assert(names.contains(x));
                }
            }
            if all.contains(x) {
                if x == name {
                    assert(longer[p] == x);
                } else {
                    assert(names.contains(x));
                    let i = choose|i: int| 0 <= i < names.len() && names[i] == x;
                    if i < p {
                        assert(longer[i] == x);
                    } else {
                        assert(longer[i + 1] == x);
                    }
                }
            }
        }
        assert(is_name_order(longer, all));
        lemma_name_order(longer, all);
    }
}

proof fn lemma_char_reads(c: char)
    ensures
        char_reads_as(escaped_char(c), c),
{
    let piece = escaped_char(c);
    if (c as u32) < 0x20 && piece.len() == 6 {
        let code = c as u32 as int;
        assert(hex_digit_value('0') == Some(0int));
        assert(hex_digit_value(lower_hex_digit(code / 16)) == Some(code / 16));
        assert(hex_digit_value(lower_hex_digit(code % 16)) == Some(code % 16));
        assert forall|i: int| 2 <= i < 6 implies hex_digit_value(#[trigger] piece[i]) is Some by {
            assert(i == 2 || i == 3 || i == 4 || i == 5);
        }
        assert(is_code_escape(piece, 0, code));
    } else if piece.len() == 2 {
        assert(short_escape(piece[1]) == Some(c));
    }
}

proof fn lemma_chars_read(text: Seq<char>)
    ensures
        chars_read_as(escaped_text(text), text),
    decreases text.len(),
{
    if text.len() > 0 {
        let body = escaped_text(text);
        let piece = escaped_char(text[0]);
        let k = piece.len() as int;
        lemma_char_reads(text[0]);
        lemma_chars_read(text.drop_first());
        assert(body.take(k) =~= piece);
        assert(body.skip(k) =~= escaped_text(text.drop_first()));
        assert(0 < k <= body.len());
    }
}

pub(crate) proof fn lemma_literal_reads(text: Seq<char>)
    ensures
        literal_reads_as(string_literal(text), text),
        name_reads_as(string_literal(text), text),
{
    let literal = string_literal(text);
    lemma_chars_read(text);
    assert(inside(literal) =~= escaped_text(text));
    lemma_surrounded(literal);
}

/// No white space stands around a text.
pub(crate) proof fn lemma_surrounded(text: Seq<char>)
    ensures
        is_surrounded(text, Seq::empty(), text, Seq::empty()),
{
    assert(text =~= Seq::<char>::empty() + text + Seq::<char>::empty());
}

/// The texts of the items of an array.
spec fn item_parts(items: Seq<JsonView>) -> Seq<Seq<char>> {
    Seq::new(items.len(), |i: int| canonical_text(items[i]))
}

proof fn lemma_items_listed(items: Seq<JsonView>, i: int)
    requires
        0 <= i < items.len(),
    ensures
        items_text(items, i) == separator(i) + listed(item_parts(items).skip(i)),
    decreases items.len() - i,
{
    let parts = item_parts(items).skip(i);
    assert(parts[0] == canonical_text(items[i]));
    if i + 1 < items.len() {
        lemma_items_listed(items, i + 1);
        assert(parts.drop_first() =~= item_parts(items).skip(i + 1));
    } else {
        assert(items_text(items, i + 1) =~= Seq::<char>::empty());
    }
    assert(items_text(items, i) =~= separator(i) + listed(parts));
}

/// The texts of the members of an object.
spec fn member_parts(
    members: Map<Seq<char>, JsonView>,
    names: Seq<Seq<char>>,
) -> Seq<Seq<char>> {
    Seq::new(
        names.len(),
        |i: int| string_literal(names[i]) + seq![':'] + canonical_text(members[names[i]]),
    )
}

proof fn lemma_members_listed(
    members: Map<Seq<char>, JsonView>,
    names: Seq<Seq<char>>,
    i: int,
)
    requires
        0 <= i < names.len(),
        members.dom().finite(),
        forall|k: int| 0 <= k < names.len() ==> members.dom().contains(#[trigger] names[k]),
    ensures
        members_text(members, names, i) == separator(i) + listed(
            member_parts(members, names).skip(i),
        ),
    decreases names.len() - i,
{
    let parts = member_parts(members, names).skip(i);
    assert(members.dom().contains(names[i]));
    assert(parts[0] == string_literal(names[i]) + seq![':'] + canonical_text(members[names[i]]));
    if i + 1 < names.len() {
        lemma_members_listed(members, names, i + 1);
        assert(parts.drop_first() =~= member_parts(members, names).skip(i + 1));
    } else {
        assert(members_text(members, names, i + 1) =~= Seq::<char>::empty());
    }
    assert(members_text(members, names, i) =~= separator(i) + listed(parts));
}

/// The ascending order of the names of an object lists them, each once.
proof fn lemma_order_lists(all: Set<Seq<char>>)
    requires
        all.finite(),
    ensures
        lists_names(name_order(all), all),
        forall|k: int|
            0 <= k < name_order(all).len() ==> all.contains(#[trigger] name_order(all)[k]),
{
    let names = name_order(all);
    lemma_name_order_exists(all);
    assert forall|i: int, j: int| 0 <= i < names.len() && 0 <= j < names.len() && i != j implies
        names[i] != names[j] by {
        text_order_is_strict_total(names[i], names[j], names[i]);
    }
    assert forall|k: int| 0 <= k < names.len() implies all.contains(#[trigger] names[k]) by {
        assert(names.contains(names[k]));
    }
}

proof fn lemma_reads(document: JsonView)
    requires
        document.valid(),
    ensures
        core_reads_as(canonical_text(document), document),
        reads_as(canonical_text(document), document),
    decreases document, 1int,
{
    let text = canonical_text(document);
    match document {
        JsonView::Text(content) => lemma_literal_reads(content),
        JsonView::Array(items) => {
            assert(inside(text) =~= items_text(items, 0));
            if items.len() > 0 {
                let parts = item_parts(items);
                lemma_items_listed(items, 0);
                assert(parts.skip(0) =~= parts);
                assert(inside(text) =~= listed(parts));
                assert forall|i: int| 0 <= i < items.len() implies reads_as(
                    parts[i],
                    #[trigger] items[i],
                ) by {
                    lemma_reads(items[i]);
                }
            }
        },
        JsonView::Object(members) => {
            let names = name_order(members.dom());
            lemma_order_lists(members.dom());
            members_read_in_any_order(members, names);
        },
        _ => {},
    }
    lemma_surrounded(text);
}

/// The members of an object can be written in any order: the text reads as the same
/// document.
pub proof fn members_read_in_any_order(
    members: Map<Seq<char>, JsonView>,
    names: Seq<Seq<char>>,
)
    requires
        JsonView::Object(members).valid(),
        lists_names(names, members.dom()),
    ensures
        core_reads_as(
            seq!['{'] + members_text(members, names, 0) + seq!['}'],
            JsonView::Object(members),
        ),
        reads_as(
            seq!['{'] + members_text(members, names, 0) + seq!['}'],
            JsonView::Object(members),
        ),
    decreases JsonView::Object(members), 0int,
{
    let text = seq!['{'] + members_text(members, names, 0) + seq!['}'];
    assert forall|k: int| 0 <= k < names.len() implies members.dom().contains(
        #[trigger] names[k],
    ) by {
        assert(names.contains(names[k]));
    }
    assert(inside(text) =~= members_text(members, names, 0));
    if members.dom() == Set::<Seq<char>>::empty() {
        if names.len() > 0 {
            assert(members.dom().contains(names[0]));
        }
    } else {
        let some = members.dom().choose();
        assert(names.contains(some)) by {
            if forall|x: Seq<char>| !members.dom().contains(x) {
                assert(members.dom() =~= Set::<Seq<char>>::empty());
            }
        }
        let keys = Seq::new(names.len(), |i: int| string_literal(names[i]));
        let values = Seq::new(names.len(), |i: int| canonical_text(members[names[i]]));
        lemma_members_listed(members, names, 0);
        assert(member_parts(members, names).skip(0) =~= member_parts(members, names));
        assert(member_parts(members, names) =~= Seq::new(
            names.len(),
            |i: int| keys[i] + seq![':'] + values[i],
        ));
        assert(inside(text) =~= listed(member_parts(members, names)));
        assert forall|i: int| 0 <= i < names.len() implies name_reads_as(
            keys[i],
            #[trigger] names[i],
        ) by {
            lemma_literal_reads(names[i]);
        }
        assert(is_member_list(inside(text), names, keys, values));
        assert forall|i: int|
            0 <= i < names.len() && members.dom().finite() && members.dom().contains(
                names[i],
            ) implies reads_as(values[i], members[#[trigger] names[i]]) by {
            lemma_reads(members[names[i]]);
        }
    }
    lemma_surrounded(text);
}

/// Canonical text reads, by the grammar of JSON, as the document it was written from, and
/// canonical bytes are that text in UTF-8.
pub proof fn canonical_text_reads_as_the_document(document: JsonView)
    requires
        document.valid(),
    ensures
        reads_as(canonical_text(document), document),
        decode_utf8(canonical_bytes(document)) == canonical_text(document),
{
    lemma_reads(document);
    encode_utf8_decode_utf8(canonical_text(document));
}

/// Two documents have the same canonical bytes exactly where they say the same: the
/// order in which members were written does not show, and every difference in what is
/// said does.
pub proof fn canonical_bytes_identify_the_document(a: JsonView, b: JsonView)
    requires
        a.valid(),
        b.valid(),
    ensures
        canonical_bytes(a) == canonical_bytes(b) <==> a == b,
{
    if canonical_bytes(a) == canonical_bytes(b) {
        lemma_encode_utf8_injective(canonical_text(a), canonical_text(b));
        lemma_reads(a);
        lemma_reads(b);
        text_reads_as_one_document(canonical_text(a), a, b);
    }
}

/// Whether no text of a document, nor a member name, holds a space.
pub open spec fn has_no_spaces(document: JsonView) -> bool
    decreases document,
{
    match document {
        JsonView::Text(text) => !text.contains(' '),
        JsonView::Array(items) => forall|i: int|
            0 <= i < items.len() ==> has_no_spaces(#[trigger] items[i]),
        JsonView::Object(members) => forall|name: Seq<char>| #[trigger]
            members.dom().contains(name) && members.dom().finite() ==> !name.contains(' ')
                && has_no_spaces(members[name]),
        _ => true,
    }
}

/// Whether a text holds no control characters, and no spaces unless they are allowed.
spec fn is_tight(text: Seq<char>, spaces: bool) -> bool {
    forall|i: int|
        0 <= i < text.len() ==> (#[trigger] text[i]) as u32 >= 0x20 && (spaces || text[i] != ' ')
}

proof fn lemma_tight_concat(a: Seq<char>, b: Seq<char>, spaces: bool)
    requires
        is_tight(a, spaces),
        is_tight(b, spaces),
    ensures
        is_tight(a + b, spaces),
{
}

proof fn lemma_tight_escapes(text: Seq<char>, spaces: bool)
    requires
        spaces || !text.contains(' '),
    ensures
        is_tight(escaped_text(text), spaces),
    decreases text.len(),
{
    if text.len() > 0 {
        let rest = text.drop_first();
        assert(text.contains(text[0]));
        if rest.contains(' ') {
            let i = choose|i: int| 0 <= i < rest.len() && rest[i] == ' ';
            assert(text[i + 1] == ' ');
        }
        lemma_tight_escapes(rest, spaces);
        assert(is_tight(escaped_char(text[0]), spaces));
        lemma_tight_concat(escaped_char(text[0]), escaped_text(rest), spaces);
    }
}

proof fn lemma_tight_literal(text: Seq<char>, spaces: bool)
    requires
        spaces || !text.contains(' '),
    ensures
        is_tight(string_literal(text), spaces),
{
    lemma_tight_escapes(text, spaces);
}

proof fn lemma_tight(document: JsonView, spaces: bool)
    requires
        document.valid(),
        spaces || has_no_spaces(document),
    ensures
        is_tight(canonical_text(document), spaces),
    decreases document, 0int,
{
    match document {
        JsonView::Text(text) => lemma_tight_literal(text, spaces),
        JsonView::Number(text) => {
            lemma_number_chars(text);
            assert forall|i: int| 0 <= i < text.len() implies (#[trigger] text[i]) as u32 >= 0x20
                && text[i] != ' ' by {
                assert(is_number_char(text[i]));
            }
        },
        JsonView::Array(items) => {
            lemma_tight_items(items, 0, spaces);
        },
        JsonView::Object(members) => {
            lemma_tight_members(members, name_order(members.dom()), 0, spaces);
        },
        _ => {},
    }
}

proof fn lemma_tight_items(items: Seq<JsonView>, i: int, spaces: bool)
    requires
        forall|k: int| 0 <= k < items.len() ==> (#[trigger] items[k]).valid(),
        spaces || forall|k: int| 0 <= k < items.len() ==> has_no_spaces(#[trigger] items[k]),
        0 <= i,
    ensures
        is_tight(items_text(items, i), spaces),
    decreases items, items.len() - i,
{
    if i < items.len() {
        lemma_tight(items[i], spaces);
        lemma_tight_items(items, i + 1, spaces);
    }
}

proof fn lemma_tight_members(
    members: Map<Seq<char>, JsonView>,
    names: Seq<Seq<char>>,
    i: int,
    spaces: bool,
)
    requires
        JsonView::Object(members).valid(),
        spaces || has_no_spaces(JsonView::Object(members)),
        0 <= i,
    ensures
        is_tight(members_text(members, names, i), spaces),
    decreases members, names.len() - i,
{
    if i < names.len() && members.dom().contains(names[i]) {
        lemma_tight_literal(names[i], spaces);
        lemma_tight(members[names[i]], spaces);
        lemma_tight_members(members, names, i + 1, spaces);
    }
}

/// Canonical text has no white space between its parts: it holds no line breaks, tabs or
/// other control characters, and no spaces but those that texts and names hold.
pub proof fn canonical_text_has_no_white_space(document: JsonView)
    requires
        document.valid(),
    ensures
        forall|i: int|
            0 <= i < canonical_text(document).len() ==> (#[trigger] canonical_text(
                document,
            )[i]) as u32 >= 0x20,
        has_no_spaces(document) ==> !canonical_text(document).contains(' '),
{
    lemma_tight(document, true);
    if has_no_spaces(document) {
        lemma_tight(document, false);
    }
}

} // verus!
