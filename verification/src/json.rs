//! JSON documents: their model, their values, and how they are parsed.
use vstd::prelude::*;

use crate::bytes::text_eq;
use crate::entries::entries_map;

verus! {

/// What a JSON document says. A number is the text it is written as; an object is
/// the map from its member names to their values, in no order.
pub enum JsonView {
    Null,
    Bool(bool),
    Number(Seq<char>),
    Text(Seq<char>),
    Array(Seq<JsonView>),
    Object(Map<Seq<char>, JsonView>),
}

/// A JSON document. The members of an object stand in any order; where a name
/// occurs more than once, its last member counts.
#[derive(Debug, PartialEq, Eq)]
pub enum JsonValue {
    Null,
    Bool(bool),
    /// The text of the number.
    Number(String),
    String(String),
    Array(Vec<JsonValue>),
    Object(Vec<(String, JsonValue)>),
}

/// What the text of a number looks like: a minus sign or none, the digits of the whole
/// part, which begin with a zero only where that is all, a point with digits or none, and
/// an exponent or none.
pub open spec fn is_number_text(text: Seq<char>) -> bool {
    exists|sign: Seq<char>, whole: Seq<char>, fraction: Seq<char>, exponent: Seq<char>| #[trigger]
        is_number_of(text, sign, whole, fraction, exponent)
}

/// Whether a number is made of these parts.
pub open spec fn is_number_of(
    text: Seq<char>,
    sign: Seq<char>,
    whole: Seq<char>,
    fraction: Seq<char>,
    exponent: Seq<char>,
) -> bool {
    &&& text == sign + whole + fraction + exponent
    &&& sign.len() == 0 || sign == seq!['-']
    &&& is_digits(whole) && (whole.len() > 1 ==> whole[0] != '0')
    &&& fraction.len() == 0 || fraction[0] == '.' && is_digits(fraction.skip(1))
    &&& exponent.len() == 0 || is_exponent(exponent)
}

/// Whether a text is an exponent: its mark, a sign or none, and digits.
pub open spec fn is_exponent(text: Seq<char>) -> bool {
    &&& text.len() > 1
    &&& text[0] == 'e' || text[0] == 'E'
    &&& if text[1] == '+' || text[1] == '-' {
        is_digits(text.skip(2))
    } else {
        is_digits(text.skip(1))
    }
}

/// Whether a text is one or more decimal digits.
pub open spec fn is_digits(text: Seq<char>) -> bool {
    text.len() > 0 && forall|i: int| 0 <= i < text.len() ==> is_digit(#[trigger] text[i])
}

/// A decimal digit.
pub open spec fn is_digit(c: char) -> bool {
    '0' <= c <= '9'
}

impl JsonView {
    /// Whether every object has finitely many members and every number is written
    /// as a number.
    pub open spec fn valid(self) -> bool
        decreases self,
    {
        match self {
            JsonView::Null => true,
            JsonView::Bool(_) => true,
            JsonView::Number(text) => is_number_text(text),
            JsonView::Text(_) => true,
            JsonView::Array(items) => forall|i: int|
                0 <= i < items.len() ==> (#[trigger] items[i]).valid(),
            JsonView::Object(members) => {
                &&& members.dom().finite()
                &&& forall|name: Seq<char>| #[trigger]
                    members.dom().contains(name) && members.dom().finite()
                        ==> members[name].valid()
            },
        }
    }

    /// The member `name` of an object; nothing has members but an object.
    pub open spec fn member(self, name: Seq<char>) -> Option<JsonView> {
        match self {
            JsonView::Object(members) => if members.dom().contains(name) {
                Some(members[name])
            } else {
                None
            },
            _ => None,
        }
    }
}

/// The members of an object, as `entries_map` takes them.
pub open spec fn member_contents(members: Seq<(String, JsonValue)>) -> Seq<(Seq<char>, JsonView)>
    decreases members,
{
    Seq::new(
        members.len(),
        |i: int|
            (
                members[i].0@,
                if 0 <= i < members.len() {
                    members[i].1.contents()
                } else {
                    JsonView::Null
                },
            ),
    )
}

impl JsonValue {
    /// What the document says.
    pub open spec fn contents(self) -> JsonView
        decreases self,
    {
        match self {
            JsonValue::Null => JsonView::Null,
            JsonValue::Bool(b) => JsonView::Bool(b),
            JsonValue::Number(text) => JsonView::Number(text@),
            JsonValue::String(text) => JsonView::Text(text@),
            JsonValue::Array(items) => JsonView::Array(
                Seq::new(
                    items@.len(),
                    |i: int|
                        if 0 <= i < items@.len() {
                            items@[i].contents()
                        } else {
                            JsonView::Null
                        },
                ),
            ),
            JsonValue::Object(members) => JsonView::Object(
                entries_map(member_contents(members@)),
            ),
        }
    }
}

impl View for JsonValue {
    type V = JsonView;

    open spec fn view(&self) -> JsonView {
        self.contents()
    }
}

/// A member that comes last gives its name its value.
pub proof fn lemma_member_pushed(before: Seq<(String, JsonValue)>, member: (String, JsonValue))
    ensures
        entries_map(member_contents(before.push(member))) == entries_map(
            member_contents(before),
        ).insert(member.0@, member.1@),
{
    assert(member_contents(before.push(member)).drop_last() =~= member_contents(before));
}

/// Takes the member `name` out of an object: what is left, and its value where it was
/// there.
pub fn take_member(members: Vec<(String, JsonValue)>, name: &str) -> (r: (
    Vec<(String, JsonValue)>,
    Option<JsonValue>,
))
    ensures
        JsonValue::Object(r.0)@->Object_0 == JsonValue::Object(members)@->Object_0.remove(name@),
        match r.1 {
            Some(value) => JsonValue::Object(members)@.member(name@) == Some(value@),
            None => JsonValue::Object(members)@.member(name@) is None,
        },
{
    let ghost parts = member_contents(members@);
    let ghost whole = members@;
    let mut kept: Vec<(String, JsonValue)> = Vec::new();
    let mut taken: Option<JsonValue> = None;
    for member in iter: members
        invariant
            iter.seq() == whole,
            parts == member_contents(whole),
            entries_map(member_contents(kept@)) == entries_map(
                parts.take(iter.index() as int),
            ).remove(name@),
            match taken {
                Some(value) => {
                    &&& entries_map(parts.take(iter.index() as int)).dom().contains(name@)
                    &&& entries_map(parts.take(iter.index() as int))[name@] == value@
                },
                None => !entries_map(parts.take(iter.index() as int)).dom().contains(name@),
            },
    {
        let ghost i = iter.index() as int;
        assert(parts.take(i + 1).drop_last() =~= parts.take(i));
        assert(parts.take(i + 1).last() == (member.0@, member.1@));
        if text_eq(member.0.as_str(), name) {
            assert(entries_map(parts.take(i)).insert(name@, member.1@).remove(name@)
                =~= entries_map(parts.take(i)).remove(name@));
            taken = Some(member.1);
        } else {
            assert(entries_map(parts.take(i)).insert(member.0@, member.1@).remove(name@)
                =~= entries_map(parts.take(i)).remove(name@).insert(member.0@, member.1@));
            proof {
                lemma_member_pushed(kept@, member);
            }
            kept.push(member);
        }
    }
    assert(parts.take(parts.len() as int) =~= parts);
    (kept, taken)
}

} // verus!
