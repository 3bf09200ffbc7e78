//! The calls into `serde_json`, and the conversion of what it parses.
use vstd::prelude::*;
use vstd::utf8::encode_utf8;

use crate::canonical::{canonical_bytes, name_order, string_literal};
use crate::decimal::integer_text;
use crate::entries::{
    distinct_keys, entries_map, lemma_entries_map_keys, lemma_entries_map_last,
    lemma_entries_map_position,
};
use crate::error::PolicyError;
use crate::json::{is_number_text, member_contents, JsonValue, JsonView};
use crate::json_grammar::reads_as;

verus! {

#[verifier::external_type_specification]
#[verifier::external_body]
pub struct ExJsonValue(serde_json::Value);

#[verifier::external_type_specification]
#[verifier::external_body]
pub struct ExJsonError(serde_json::Error);

/// What a `serde_json::Value` says as a JSON document.
pub uninterp spec fn value_contents(value: serde_json::Value) -> JsonView;

/// What `serde_json::from_slice` makes of the bytes of a document: the document, or
/// nothing where it refuses them.
pub uninterp spec fn parsed_json(input: Seq<u8>) -> Option<JsonView>;

/// The outermost layer of a parsed document, its parts still unopened.
pub(crate) enum JsonLayer {
    Null,
    Bool(bool),
    Number(String),
    String(String),
    Array(Vec<serde_json::Value>),
    Object(Vec<(String, serde_json::Value)>),
}

impl JsonLayer {
    /// What the document says whose outermost layer this is.
    pub(crate) open spec fn contents(self) -> JsonView {
        match self {
            JsonLayer::Null => JsonView::Null,
            JsonLayer::Bool(b) => JsonView::Bool(b),
            JsonLayer::Number(text) => JsonView::Number(text@),
            JsonLayer::String(text) => JsonView::Text(text@),
            JsonLayer::Array(items) => JsonView::Array(
                Seq::new(items@.len(), |i: int| value_contents(items@[i])),
            ),
            JsonLayer::Object(members) => JsonView::Object(
                entries_map(value_members(members@)),
            ),
        }
    }
}

/// The name that stands for raw JSON text in `serde_json`, where it is the first of an
/// object that is read.
pub open spec fn raw_value_name() -> Seq<char> {
    "$serde_json::private::RawValue"@
}

/// Whether `serde_json` reads a document back from its canonical bytes: its numbers are
/// integers of 64 bits, arrays and objects are nested at most `depth` deep, and of no
/// object the least name, which canonical text writes first, is the one that stands for
/// raw JSON text. Any other number can come back written in another way.
pub open spec fn reads_back(document: JsonView, depth: int) -> bool
    decreases document,
{
    match document {
        JsonView::Number(text) => exists|n: int|
            i64::MIN <= n <= u64::MAX && text == #[trigger] integer_text(n),
        JsonView::Array(items) => depth > 0 && forall|i: int|
            0 <= i < items.len() ==> reads_back(#[trigger] items[i], depth - 1),
        JsonView::Object(members) => {
            &&& depth > 0
            &&& members.dom().finite()
            &&& !(name_order(members.dom()).len() > 0 && name_order(members.dom())[0]
                == raw_value_name())
            &&& forall|name: Seq<char>| #[trigger]
                members.dom().contains(name) && members.dom().finite() ==> reads_back(
                    members[name],
                    depth - 1,
                )
        },
        _ => true,
    }
}

/// Whether no member of a document, at any depth, has the name that stands for raw JSON
/// text, so that members can be read in any order.
pub open spec fn names_no_raw_value(document: JsonView) -> bool
    decreases document,
{
    match document {
        JsonView::Array(items) => forall|i: int|
            0 <= i < items.len() ==> names_no_raw_value(#[trigger] items[i]),
        JsonView::Object(members) => forall|name: Seq<char>| #[trigger]
            members.dom().contains(name) && members.dom().finite() ==> name != raw_value_name()
                && names_no_raw_value(members[name]),
        _ => true,
    }
}

/// Whether a text reads as a document and `serde_json` can give the document for it,
/// whatever the order of its members, its white space and its escapes.
pub open spec fn is_readable_text(text: Seq<char>, document: JsonView) -> bool {
    &&& reads_as(text, document)
    &&& reads_back(document, read_depth())
    &&& names_no_raw_value(document)
}

/// How deep `serde_json` reads nested arrays and objects.
pub open spec fn read_depth() -> int {
    127
}

/// Calls `serde_json::from_slice`, which parses a whole JSON document. Claimed: what
/// it gives back is what `parsed_json` names for these bytes, and it fails exactly
/// where that names nothing; from the canonical bytes of a document it gives that
/// document, where `reads_back` holds of it; and so it does from any text that reads as
/// the document by the grammar of JSON, where no name in it stands for raw JSON text.
#[verifier::external_body]
fn parse_value(input: &[u8]) -> (r: Result<serde_json::Value, serde_json::Error>)
    ensures
        match r {
            Ok(value) => parsed_json(input@) == Some(value_contents(value)),
            Err(_) => parsed_json(input@) is None,
        },
        forall|document: JsonView|
            reads_back(document, read_depth()) && input@ == #[trigger] canonical_bytes(document)
                ==> r is Ok && value_contents(r->Ok_0) == document,
        forall|text: Seq<char>, document: JsonView| #[trigger]
            is_readable_text(text, document) && input@ == encode_utf8(text) ==> r is Ok
                && value_contents(r->Ok_0) == document,
{
    serde_json::from_slice(input)
}

/// Takes a `serde_json::Value` apart into its outermost layer, one variant for one.
/// Claimed: the layer says what the value says; a number, which
/// `serde_json::Number` writes with `to_string`, is written as a number; and no two
/// members of a `serde_json::Map` have the same name.
#[verifier::external_body]
fn open_value(value: serde_json::Value) -> (r: JsonLayer)
    ensures
        r.contents() == value_contents(value),
        r matches JsonLayer::Number(text) ==> is_number_text(text@),
        r matches JsonLayer::Object(members) ==> distinct_keys(value_members(members@)),
{
    match value {
        serde_json::Value::Null => JsonLayer::Null,
        serde_json::Value::Bool(b) => JsonLayer::Bool(b),
        serde_json::Value::Number(number) => JsonLayer::Number(number.to_string()),
        serde_json::Value::String(text) => JsonLayer::String(text),
        serde_json::Value::Array(items) => JsonLayer::Array(items),
        serde_json::Value::Object(members) => JsonLayer::Object(members.into_iter().collect()),
    }
}

/// The members of a parsed object, as `entries_map` takes them.
pub(crate) open spec fn value_members(
    members: Seq<(String, serde_json::Value)>,
) -> Seq<(Seq<char>, JsonView)> {
    Seq::new(members.len(), |i: int| (members[i].0@, value_contents(members[i].1)))
}

/// The document that a parsed value holds.
fn from_value(value: serde_json::Value) -> (r: JsonValue)
    ensures
        r@ == value_contents(value),
        r@.valid(),
    decreases value_contents(value),
{
    let ghost whole = value_contents(value);
    match open_value(value) {
        JsonLayer::Null => JsonValue::Null,
        JsonLayer::Bool(b) => JsonValue::Bool(b),
        JsonLayer::Number(text) => JsonValue::Number(text),
        JsonLayer::String(text) => JsonValue::String(text),
        JsonLayer::Array(items) => {
            let ghost parts = items@;
            let mut out: Vec<JsonValue> = Vec::new();
            for item in iter: items
                invariant
                    iter.seq() == parts,
                    whole == value_contents(value),
                    whole == JsonView::Array(
                        Seq::new(parts.len(), |i: int| value_contents(parts[i])),
                    ),
                    out@.len() == iter.index(),
                    forall|j: int|
                        0 <= j < out@.len() ==> (#[trigger] out@[j])@ == value_contents(parts[j])
                            && out@[j]@.valid(),
            {
                proof {
                    let k = iter.index();
                    assert(whole->Array_0[k] == value_contents(item));
                }
                out.push(from_value(item));
            }
            assert(whole->Array_0 =~= JsonValue::Array(out)@->Array_0);
            JsonValue::Array(out)
        },
        JsonLayer::Object(members) => {
            let ghost parts = members@;
            let mut out: Vec<(String, JsonValue)> = Vec::new();
            for member in iter: members
                invariant
                    iter.seq() == parts,
                    whole == value_contents(value),
                    whole == JsonView::Object(entries_map(value_members(parts))),
                    distinct_keys(value_members(parts)),
                    out@.len() == iter.index(),
                    forall|j: int|
                        0 <= j < out@.len() ==> (#[trigger] out@[j]).0@ == parts[j].0@
                            && out@[j].1@ == value_contents(parts[j].1) && out@[j].1@.valid(),
            {
                proof {
                    let k = iter.index();
                    lemma_entries_map_keys(value_members(parts));
                    lemma_entries_map_last(value_members(parts), k);
                    assert(value_members(parts)[k] == (member.0@, value_contents(member.1)));
                    let all = whole->Object_0;
                    assert(decreases_to!(whole => all));
                    assert(decreases_to!(all => all[member.0@]));
                }
                let (name, part) = member;
                let converted = from_value(part);
                out.push((name, converted));
            }
            let r = JsonValue::Object(out);
            proof {
                assert(r@->Object_0 == entries_map(value_members(parts))) by {
                    assert(member_contents(out@) =~= value_members(parts));
                }
                lemma_entries_map_keys(value_members(parts));
                assert forall|name: Seq<char>| #[trigger]
                    r@->Object_0.dom().contains(name) implies r@->Object_0[name].valid() by {
                    let k = lemma_entries_map_position(value_members(parts), name);
                    assert(out@[k].1@.valid());
                }
            }
            r
        },
    }
}

/// Calls `serde_json::to_vec` on a text. Claimed: it succeeds, and writes the UTF-8
/// bytes of the string literal of the text.
#[verifier::external_body]
pub(crate) fn string_literal_bytes(text: &str) -> (r: Result<Vec<u8>, serde_json::Error>)
    ensures
        r is Ok,
        r->Ok_0@ == encode_utf8(string_literal(text@)),
{
    serde_json::to_vec(text)
}

/// The document that some bytes hold. Canonical bytes of a document give that document
/// back, and so does every text that reads as it, where its numbers are integers and its
/// nesting is not too deep.
pub fn parse_json(input: &[u8]) -> (r: Result<JsonValue, PolicyError>)
    ensures
        match r {
            Ok(value) => parsed_json(input@) == Some(value@) && value@.valid(),
            Err(e) => parsed_json(input@) is None && e == PolicyError::InvalidPolicy,
        },
        forall|document: JsonView|
            reads_back(document, read_depth()) && input@ == #[trigger] canonical_bytes(document)
                ==> r is Ok && r->Ok_0@ == document,
        forall|text: Seq<char>, document: JsonView| #[trigger]
            is_readable_text(text, document) && input@ == encode_utf8(text) ==> r is Ok
                && r->Ok_0@ == document,
{
    match parse_value(input) {
        Ok(value) => Ok(from_value(value)),
        Err(_) => Err(PolicyError::InvalidPolicy),
    }
}

} // verus!
