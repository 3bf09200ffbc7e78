//! Canonical JSON: member names in order at every level, no white space, array order
//! kept, strings with the fewest escapes.
use vstd::prelude::*;
use vstd::utf8::encode_utf8;

use crate::bytes::{
    lemma_encode_utf8_ascii, lemma_encode_utf8_concat, text_eq, text_less,
    text_order_is_strict_total, text_precedes,
};
use crate::entries::{
    entries_map, lemma_entries_map_keys, lemma_entries_map_last, lemma_entries_map_position,
};
use crate::error::PolicyError;
use crate::json::{member_contents, JsonValue, JsonView};
use crate::json_codec::string_literal_bytes;

verus! {

/// The hexadecimal digit of a number below sixteen, in lower case.
pub open spec fn lower_hex_digit(n: int) -> char {
    seq![
        '0', '1', '2', '3', '4', '5', '6', '7', '8', '9', 'a', 'b', 'c', 'd', 'e', 'f',
    ][n]
}

/// How a character is written between the quotes of a string literal: quotes,
/// backslashes and control characters are escaped, by the short escape where there
/// is one, and anything else stands for itself.
pub open spec fn escaped_char(c: char) -> Seq<char> {
    if c == '"' {
        seq!['\\', '"']
    } else if c == '\\' {
        seq!['\\', '\\']
    } else if c == '\u{8}' {
        seq!['\\', 'b']
    } else if c == '\t' {
        seq!['\\', 't']
    } else if c == '\n' {
        seq!['\\', 'n']
    } else if c == '\u{c}' {
        seq!['\\', 'f']
    } else if c == '\r' {
        seq!['\\', 'r']
    } else if (c as u32) < 0x20 {
        seq![
            '\\',
            'u',
            '0',
            '0',
            lower_hex_digit(c as u32 as int / 16),
            lower_hex_digit(c as u32 as int % 16),
        ]
    } else {
        seq![c]
    }
}

/// What stands between the quotes of the string literal of a text.
pub open spec fn escaped_text(text: Seq<char>) -> Seq<char>
    decreases text.len(),
{
    if text.len() == 0 {
        Seq::empty()
    } else {
        escaped_char(text[0]) + escaped_text(text.drop_first())
    }
}

/// The string literal of a text.
pub open spec fn string_literal(text: Seq<char>) -> Seq<char> {
    seq!['"'] + escaped_text(text) + seq!['"']
}

/// Whether `names` lists the member names `all`, each once, in ascending order.
pub open spec fn is_name_order(names: Seq<Seq<char>>, all: Set<Seq<char>>) -> bool {
    &&& forall|i: int, j: int| 0 <= i < j < names.len() ==> text_less(names[i], names[j])
    &&& forall|name: Seq<char>| #[trigger] names.contains(name) <==> all.contains(name)
}

/// The member names of an object in ascending order.
pub open spec fn name_order(all: Set<Seq<char>>) -> Seq<Seq<char>> {
    choose|names: Seq<Seq<char>>| is_name_order(names, all)
}

/// The canonical text of a document.
pub open spec fn canonical_text(document: JsonView) -> Seq<char>
    decreases document, 0int,
{
    match document {
        JsonView::Null => seq!['n', 'u', 'l', 'l'],
        JsonView::Bool(b) => if b {
            seq!['t', 'r', 'u', 'e']
        } else {
            seq!['f', 'a', 'l', 's', 'e']
        },
        JsonView::Number(text) => text,
        JsonView::Text(text) => string_literal(text),
        JsonView::Array(items) => seq!['['] + items_text(items, 0) + seq![']'],
        JsonView::Object(members) => seq!['{'] + members_text(
            members,
            name_order(members.dom()),
            0,
        ) + seq!['}'],
    }
}

/// The canonical texts of the items of an array from position `i` on, a comma before
/// each but the first of the array.
pub open spec fn items_text(items: Seq<JsonView>, i: int) -> Seq<char>
    decreases items, items.len() - i,
{
    if 0 <= i < items.len() {
        separator(i) + canonical_text(items[i]) + items_text(items, i + 1)
    } else {
        Seq::empty()
    }
}

/// The members of an object whose names stand in `names` from position `i` on: each
/// its name, a colon and the canonical text of its value, a comma before each but the
/// first of the object.
pub open spec fn members_text(
    members: Map<Seq<char>, JsonView>,
    names: Seq<Seq<char>>,
    i: int,
) -> Seq<char>
    decreases members, names.len() - i,
{
    if 0 <= i < names.len() && members.dom().finite() && members.dom().contains(names[i]) {
        separator(i) + string_literal(names[i]) + seq![':'] + canonical_text(members[names[i]])
            + members_text(members, names, i + 1)
    } else {
        Seq::empty()
    }
}

/// What stands before the part at position `i`.
pub open spec fn separator(i: int) -> Seq<char> {
    if i == 0 {
        Seq::empty()
    } else {
        seq![',']
    }
}

/// The canonical bytes of a document.
pub open spec fn canonical_bytes(document: JsonView) -> Seq<u8> {
    encode_utf8(canonical_text(document))
}

/// There is one ascending order of a set of names.
pub proof fn lemma_name_order_unique(a: Seq<Seq<char>>, b: Seq<Seq<char>>, all: Set<Seq<char>>)
    requires
        is_name_order(a, all),
        is_name_order(b, all),
    ensures
        a == b,
{
    lemma_name_order_agrees(a, b, all, a.len());
    lemma_name_order_agrees(b, a, all, b.len());
    assert(a =~= b);
}

proof fn lemma_name_order_agrees(
    a: Seq<Seq<char>>,
    b: Seq<Seq<char>>,
    all: Set<Seq<char>>,
    n: nat,
)
    requires
        is_name_order(a, all),
        is_name_order(b, all),
        n <= a.len(),
    ensures
        n <= b.len(),
        forall|k: int| 0 <= k < n ==> a[k] == b[k],
    decreases n,
{
    if n > 0 {
        let i = n - 1;
        lemma_name_order_agrees(a, b, all, i as nat);
        assert(a.contains(a[i]));
        assert(b.contains(a[i]));
        let j = choose|j: int| 0 <= j < b.len() && b[j] == a[i];
        text_order_is_strict_total(a[i], a[i], a[i]);
        if j < i {
            assert(text_less(a[j], a[i]));
        }
        assert(b.contains(b[i]));
        assert(a.contains(b[i]));
        let k = choose|k: int| 0 <= k < a.len() && a[k] == b[i];
        text_order_is_strict_total(b[i], b[i], b[i]);
        if k < i {
            assert(text_less(b[k], b[i]));
        }
        text_order_is_strict_total(a[i], b[i], a[i]);
    }
}

/// An ascending order of a set of names is the one that `name_order` gives.
pub proof fn lemma_name_order(names: Seq<Seq<char>>, all: Set<Seq<char>>)
    requires
        is_name_order(names, all),
    ensures
        name_order(all) == names,
{
    lemma_name_order_unique(names, name_order(all), all);
}

/// The name of a member.
spec fn name_at(members: Seq<(String, JsonValue)>, i: int) -> Seq<char> {
    members[i].0@
}

/// The names of the members at the given positions.
spec fn names_at(members: Seq<(String, JsonValue)>, order: Seq<usize>) -> Seq<Seq<char>> {
    Seq::new(order.len(), |p: int| name_at(members, order[p] as int))
}

/// Whether the name of member `j` is that of one of the positions in `order`.
spec fn is_listed(members: Seq<(String, JsonValue)>, order: Seq<usize>, j: int) -> bool {
    exists|p: int|
        0 <= p < order.len() && #[trigger] name_at(members, order[p] as int) == name_at(members, j)
}

/// What `order` is when the first `n` members have been sorted in: positions of members
/// with ascending names, of each name its last member, and every name is there.
spec fn sorted_in(members: Seq<(String, JsonValue)>, order: Seq<usize>, n: int) -> bool {
    &&& forall|p: int| 0 <= p < order.len() ==> #[trigger] order[p] < n
    &&& forall|p: int, q: int|
        0 <= p < q < order.len() ==> text_less(
            #[trigger] name_at(members, order[p] as int),
            #[trigger] name_at(members, order[q] as int),
        )
    &&& forall|p: int, j: int|
        0 <= p < order.len() && order[p] < j < n ==> #[trigger] name_at(
            members,
            order[p] as int,
        ) != #[trigger] name_at(members, j)
    &&& forall|j: int| 0 <= j < n ==> #[trigger] is_listed(members, order, j)
}

/// The positions of the members of an object in the order of their names, of each name
/// its last member.
fn member_order(members: &Vec<(String, JsonValue)>) -> (order: Vec<usize>)
    ensures
        sorted_in(members@, order@, members@.len() as int),
{
    let mut order: Vec<usize> = Vec::new();
    let mut i: usize = 0;
    while i < members.len()
        invariant
            i <= members@.len(),
            sorted_in(members@, order@, i as int),
        decreases members@.len() - i,
    {
        let name: &str = members[i].0.as_str();
        let mut p: usize = 0;
        while p < order.len() && text_precedes(members[order[p]].0.as_str(), name)
            invariant
                i < members@.len(),
                p <= order@.len(),
                name@ == name_at(members@, i as int),
                sorted_in(members@, order@, i as int),
                forall|q: int|
                    0 <= q < p ==> text_less(
                        #[trigger] name_at(members@, order@[q] as int),
                        name@,
                    ),
            decreases order@.len() - p,
        {
            p += 1;
        }
        let ghost before = order@;
        if p < order.len() && text_eq(members[order[p]].0.as_str(), name) {
            order.set(p, i);
            proof {
                lemma_replaced(members@, before, order@, p as int, i);
            }
        } else {
            order.insert(p, i);
            proof {
                lemma_inserted(members@, before, order@, p as int, i);
            }
        }
        i += 1;
    }
    order
}

proof fn lemma_replaced(
    members: Seq<(String, JsonValue)>,
    before: Seq<usize>,
    after: Seq<usize>,
    p: int,
    i: usize,
)
    requires
        sorted_in(members, before, i as int),
        0 <= p < before.len(),
        name_at(members, before[p] as int) == name_at(members, i as int),
        after == before.update(p, i),
    ensures
        sorted_in(members, after, i + 1),
{
    let n = i + 1;
    assert forall|a: int, b: int| 0 <= a < b < after.len() implies text_less(
        #[trigger] name_at(members, after[a] as int),
        #[trigger] name_at(members, after[b] as int),
    ) by {
        assert(name_at(members, after[a] as int) == name_at(members, before[a] as int));
        assert(name_at(members, after[b] as int) == name_at(members, before[b] as int));
    }
    assert forall|a: int, j: int|
        0 <= a < after.len() && after[a] < j < n implies #[trigger] name_at(
        members,
        after[a] as int,
    ) != #[trigger] name_at(members, j) by {
        assert(a != p);
        assert(after[a] == before[a]);
        if j == i {
            text_order_is_strict_total(
                name_at(members, before[p] as int),
                name_at(members, before[a] as int),
                name_at(members, before[p] as int),
            );
        } else {
            assert(name_at(members, before[a] as int) != name_at(members, j));
        }
    }
    assert forall|j: int| 0 <= j < n implies #[trigger] is_listed(members, after, j) by {
        if j == i {
            assert(name_at(members, after[p] as int) == name_at(members, j));
        } else {
            assert(is_listed(members, before, j));
            let a = choose|a: int|
                0 <= a < before.len() && #[trigger] name_at(members, before[a] as int) == name_at(
                    members,
                    j,
                );
            assert(name_at(members, after[a] as int) == name_at(members, j));
        }
    }
}

proof fn lemma_inserted(
    members: Seq<(String, JsonValue)>,
    before: Seq<usize>,
    after: Seq<usize>,
    p: int,
    i: usize,
)
    requires
        sorted_in(members, before, i as int),
        0 <= p <= before.len(),
        forall|q: int|
            0 <= q < p ==> text_less(
                #[trigger] name_at(members, before[q] as int),
                name_at(members, i as int),
            ),
        p < before.len() ==> !text_less(
            name_at(members, before[p] as int),
            name_at(members, i as int),
        ) && name_at(members, before[p] as int) != name_at(members, i as int),
        after == before.insert(p, i),
    ensures
        sorted_in(members, after, i + 1),
{
    let n = i + 1;
    let new = name_at(members, i as int);
    assert forall|a: int| 0 <= a < before.len() implies before[a] == after[if a < p {
        a
    } else {
        a + 1
    }] by {}
    assert forall|a: int| p <= a < before.len() implies text_less(
        new,
        #[trigger] name_at(members, before[a] as int),
    ) by {
        let least = name_at(members, before[p] as int);
        text_order_is_strict_total(least, new, least);
        text_order_is_strict_total(new, least, name_at(members, before[a] as int));
    }
    assert forall|a: int, b: int| 0 <= a < b < after.len() implies text_less(
        #[trigger] name_at(members, after[a] as int),
        #[trigger] name_at(members, after[b] as int),
    ) by {
        let x = if a < p {
            a
        } else {
            a - 1
        };
        let y = if b < p {
            b
        } else {
            b - 1
        };
        if a != p {
            assert(after[a] == before[x]);
        }
        if b != p {
            assert(after[b] == before[y]);
        }
        if a != p && b != p {
            assert(text_less(
                name_at(members, before[x] as int),
                name_at(members, before[y] as int),
            ));
        }
    }
    assert forall|a: int, j: int|
        0 <= a < after.len() && after[a] < j < n implies #[trigger] name_at(
        members,
        after[a] as int,
    ) != #[trigger] name_at(members, j) by {
        let x = if a < p {
            a
        } else {
            a - 1
        };
        assert(a != p);
        assert(after[a] == before[x]);
        if j == i {
            text_order_is_strict_total(new, new, new);
        } else {
            assert(name_at(members, before[x] as int) != name_at(members, j));
        }
    }
    assert forall|j: int| 0 <= j < n implies #[trigger] is_listed(members, after, j) by {
        if j == i {
            assert(name_at(members, after[p] as int) == name_at(members, j));
        } else {
            assert(is_listed(members, before, j));
            let a = choose|a: int|
                0 <= a < before.len() && #[trigger] name_at(members, before[a] as int) == name_at(
                    members,
                    j,
                );
            let b = if a < p {
                a
            } else {
                a + 1
            };
            assert(name_at(members, after[b] as int) == name_at(members, j));
        }
    }
    assert forall|a: int| 0 <= a < after.len() implies #[trigger] after[a] < n by {
        if a != p {
            assert(after[a] == before[if a < p {
                a
            } else {
                a - 1
            }]);
        }
    }
}

/// The names in the order of `member_order` are the name order of the object, and each
/// position gives the value of its name.
proof fn lemma_member_order(members: Seq<(String, JsonValue)>, order: Seq<usize>)
    requires
        sorted_in(members, order, members.len() as int),
    ensures
        name_order(entries_map(member_contents(members)).dom()) == names_at(members, order),
        entries_map(member_contents(members)).dom().finite(),
        forall|p: int|
            0 <= p < order.len() ==> entries_map(member_contents(members)).dom().contains(
                #[trigger] name_at(members, order[p] as int),
            ) && entries_map(member_contents(members))[name_at(members, order[p] as int)]
                == members[order[p] as int].1@,
{
    let parts = member_contents(members);
    let all = entries_map(parts);
    let names = names_at(members, order);
    lemma_entries_map_keys(parts);
    assert forall|p: int| 0 <= p < order.len() implies all.dom().contains(
        #[trigger] name_at(members, order[p] as int),
    ) && all[name_at(members, order[p] as int)] == members[order[p] as int].1@ by {
        let k = order[p] as int;
        assert forall|j: int| k < j < parts.len() implies (#[trigger] parts[j]).0 != parts[k].0 by {
            assert(name_at(members, k) != name_at(members, j));
        }
        lemma_entries_map_last(parts, k);
    }
    assert forall|name: Seq<char>| #[trigger] names.contains(name) <==> all.dom().contains(
        name,
    ) by {
        if names.contains(name) {
            let p = choose|p: int| 0 <= p < names.len() && names[p] == name;
            assert(name_at(members, order[p] as int) == name);
        }
        if all.dom().contains(name) {
            let j = lemma_entries_map_position(parts, name);
            assert(is_listed(members, order, j));
            let p = choose|p: int|
                0 <= p < order.len() && #[trigger] name_at(members, order[p] as int) == name_at(
                    members,
                    j,
                );
            assert(names[p] == name);
        }
    }
    assert forall|a: int, b: int| 0 <= a < b < names.len() implies text_less(
        names[a],
        names[b],
    ) by {
        assert(text_less(
            name_at(members, order[a] as int),
            name_at(members, order[b] as int),
        ));
    }
    lemma_name_order(names, all.dom());
}

/// Writing the first piece of a text leaves the rest to be written.
proof fn lemma_written(done: Seq<u8>, piece: Seq<char>, rest: Seq<char>)
    ensures
        done + encode_utf8(piece + rest) == (done + encode_utf8(piece)) + encode_utf8(rest),
{
    lemma_encode_utf8_concat(piece, rest);
    assert(done + encode_utf8(piece + rest) =~= (done + encode_utf8(piece)) + encode_utf8(rest));
}

/// Appends an ASCII character.
fn push_ascii(out: &mut Vec<u8>, byte: u8)
    requires
        byte < 0x80,
    ensures
        final(out)@ == old(out)@ + encode_utf8(seq![byte as char]),
{
    out.push(byte);
    proof {
        lemma_encode_utf8_ascii(byte);
    }
}

/// Appends the UTF-8 bytes of a text.
fn push_text(out: &mut Vec<u8>, text: &str)
    ensures
        final(out)@ == old(out)@ + encode_utf8(text@),
{
    out.extend_from_slice(text.as_bytes());
}

/// Appends the canonical bytes of an array.
fn push_items(items: &Vec<JsonValue>, out: &mut Vec<u8>) -> (r: Result<(), PolicyError>)
    ensures
        r is Ok,
        final(out)@ == old(out)@ + canonical_bytes(JsonValue::Array(*items)@),
    decreases items@,
{
    let ghost start = out@;
    let ghost parts = JsonValue::Array(*items)@->Array_0;
    let ghost goal = start + canonical_bytes(JsonView::Array(parts));
    push_ascii(out, 0x5b);
    proof {
        lemma_written(start, seq!['['], items_text(parts, 0) + seq![']']);
        assert(seq!['['] + (items_text(parts, 0) + seq![']']) =~= canonical_text(
            JsonView::Array(parts),
        ));
    }
    let mut i: usize = 0;
    while i < items.len()
        invariant
            i <= items@.len(),
            parts == JsonValue::Array(*items)@->Array_0,
            out@ + encode_utf8(items_text(parts, i as int) + seq![']']) == goal,
        decreases items@.len() - i,
    {
        let ghost rest = items_text(parts, i + 1) + seq![']'];
        let ghost item = canonical_text(parts[i as int]);
        let ghost before = out@;
        assert(items_text(parts, i as int) + seq![']'] =~= separator(i as int) + (item + rest));
        proof {
            lemma_written(before, separator(i as int), item + rest);
        }
        if i > 0 {
            push_ascii(out, 0x2c);
        }
        assert(out@ =~= before + encode_utf8(separator(i as int)));
        proof {
            lemma_written(out@, item, rest);
        }
        canonical_value_bytes_into(&items[i], out)?;
        i += 1;
    }
    assert(items_text(parts, i as int) + seq![']'] =~= seq![']']);
    push_ascii(out, 0x5d);
    Ok(())
}

/// Appends the canonical bytes of an object.
fn push_members(members: &Vec<(String, JsonValue)>, out: &mut Vec<u8>) -> (r: Result<
    (),
    PolicyError,
>)
    ensures
        r is Ok,
        final(out)@ == old(out)@ + canonical_bytes(JsonValue::Object(*members)@),
    decreases members@,
{
    let ghost start = out@;
    let ghost all = entries_map(member_contents(members@));
    let ghost goal = start + canonical_bytes(JsonView::Object(all));
    let order = member_order(members);
    let ghost names = names_at(members@, order@);
    proof {
        lemma_member_order(members@, order@);
    }
    push_ascii(out, 0x7b);
    proof {
        lemma_written(start, seq!['{'], members_text(all, names, 0) + seq!['}']);
        assert(seq!['{'] + (members_text(all, names, 0) + seq!['}']) =~= canonical_text(
            JsonView::Object(all),
        ));
    }
    let mut i: usize = 0;
    while i < order.len()
        invariant
            i <= order@.len(),
            sorted_in(members@, order@, members@.len() as int),
            all == entries_map(member_contents(members@)),
            names == names_at(members@, order@),
            out@ + encode_utf8(members_text(all, names, i as int) + seq!['}']) == goal,
        decreases order@.len() - i,
    {
        let (name, value) = (&members[order[i]].0, &members[order[i]].1);
        let ghost rest = members_text(all, names, i + 1) + seq!['}'];
        let ghost text = canonical_text(value@);
        let ghost literal = string_literal(name@);
        let ghost before = out@;
        proof {
            lemma_member_order(members@, order@);
            assert(names[i as int] == name_at(members@, order@[i as int] as int));
            assert(members_text(all, names, i as int) + seq!['}'] =~= separator(i as int) + (literal
                + (seq![':'] + (text + rest))));
            lemma_written(before, separator(i as int), literal + (seq![':'] + (text + rest)));
        }
        if i > 0 {
            push_ascii(out, 0x2c);
        }
        assert(out@ =~= before + encode_utf8(separator(i as int)));
        let literal_bytes = match string_literal_bytes(name.as_str()) {
            Ok(bytes) => bytes,
            Err(_) => return Err(PolicyError::InvalidPolicy),
        };
        proof {
            lemma_written(out@, literal, seq![':'] + (text + rest));
        }
        out.extend_from_slice(literal_bytes.as_slice());
        proof {
            lemma_written(out@, seq![':'], text + rest);
        }
        push_ascii(out, 0x3a);
        proof {
            lemma_written(out@, text, rest);
        }
        canonical_value_bytes_into(value, out)?;
        i += 1;
    }
    assert(members_text(all, names, i as int) + seq!['}'] =~= seq!['}']);
    push_ascii(out, 0x7d);
    Ok(())
}

/// Appends the canonical bytes of a document: the names of every object in ascending
/// order, no white space, the items of an array in their order.
pub fn canonical_value_bytes_into(value: &JsonValue, out: &mut Vec<u8>) -> (r: Result<
    (),
    PolicyError,
>)
    ensures
        r is Ok,
        final(out)@ == old(out)@ + canonical_bytes(value@),
    decreases value,
{
    match value {
        JsonValue::Null => {
            proof {
                reveal_strlit("null");
                assert("null"@ =~= canonical_text(JsonView::Null));
            }
            push_text(out, "null");
        },
        JsonValue::Bool(b) => {
            proof {
                reveal_strlit("true");
                reveal_strlit("false");
                assert("true"@ =~= canonical_text(JsonView::Bool(true)));
                assert("false"@ =~= canonical_text(JsonView::Bool(false)));
            }
            push_text(out, if *b { "true" } else { "false" });
        },
        JsonValue::Number(text) => push_text(out, text.as_str()),
        JsonValue::String(text) => {
            match string_literal_bytes(text.as_str()) {
                Ok(bytes) => out.extend_from_slice(bytes.as_slice()),
                Err(_) => return Err(PolicyError::InvalidPolicy),
            }
        },
        JsonValue::Array(items) => push_items(items, out)?,
        JsonValue::Object(members) => push_members(members, out)?,
    }
    Ok(())
}

/// The canonical bytes of a document.
pub fn canonical_value_bytes(value: &JsonValue) -> (r: Result<Vec<u8>, PolicyError>)
    ensures
        r is Ok,
        r->Ok_0@ == canonical_bytes(value@),
{
    let mut out: Vec<u8> = Vec::new();
    canonical_value_bytes_into(value, &mut out)?;
    assert(Seq::<u8>::empty() + canonical_bytes(value@) =~= canonical_bytes(value@));
    Ok(out)
}

} // verus!
