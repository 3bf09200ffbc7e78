//! What values stand for, part by part.
use vstd::prelude::*;

use crate::comid::{
    extra_contents, views, CborValue, CborView, ClassId, ClassIdView, Comid, EndorsementSeries,
    Environment, InstanceId, InstanceIdView, Measurement, ReferenceValues, SeriesRecord,
};
use crate::entries::{
    entries_map, lemma_entries_map_keys, lemma_entries_map_last, lemma_entries_map_position,
};
use crate::json::{member_contents, JsonValue, JsonView};
use crate::json_codec::{value_contents, value_members, JsonLayer};
use crate::servtd_collateral::Measurements;
use crate::servtd_provider::{lookup_view, ServtdIdentity, ServtdLookup};

verus! {

/// Scalars stand for what they hold, and arrays for their items in their order.
pub proof fn json_values_stand_for_their_parts(
    b: bool,
    text: String,
    items: Vec<JsonValue>,
    i: int,
)
    ensures
        JsonValue::Null@ == JsonView::Null,
        JsonValue::Bool(b)@ == JsonView::Bool(b),
        JsonValue::Number(text)@ == JsonView::Number(text@),
        JsonValue::String(text)@ == JsonView::Text(text@),
        JsonValue::Array(items)@ is Array,
        JsonValue::Array(items)@->Array_0.len() == items@.len(),
        0 <= i < items@.len() ==> JsonValue::Array(items)@->Array_0[i] == items@[i]@,
{
}

/// An object has the names of its members and no others, and under a name the value of the last
/// member that has it.
pub proof fn objects_stand_for_their_last_members(
    members: Vec<(String, JsonValue)>,
    name: Seq<char>,
)
    ensures
        JsonValue::Object(members)@ is Object,
        match JsonValue::Object(members)@.member(name) {
            Some(value) => exists|i: int|
                0 <= i < members@.len() && (#[trigger] members@[i]).0@ == name && members@[i].1@
                    == value && forall|j: int|
                    i < j < members@.len() ==> (#[trigger] members@[j]).0@ != name,
            None => forall|i: int| 0 <= i < members@.len() ==> (#[trigger] members@[i]).0@ != name,
        },
        JsonValue::Object(members)@.member(name) is Some
            <==> JsonValue::Object(members)@->Object_0.dom().contains(name),
        JsonValue::Object(members)@.member(name) is Some ==> JsonValue::Object(members)@.member(
            name,
        )->0 == JsonValue::Object(members)@->Object_0[name],
{
    let parts = member_contents(members@);
    lemma_entries_map_keys(parts);
    assert forall|i: int| 0 <= i < members@.len() implies parts[i] == (
        (#[trigger] members@[i]).0@,
        members@[i].1@,
    ) by {}
    if entries_map(parts).dom().contains(name) {
        let i = lemma_entries_map_position(parts, name);
        assert(members@[i].0@ == name && members@[i].1@ == entries_map(parts)[name]);
        assert forall|j: int| i < j < members@.len() implies (#[trigger] members@[j]).0@
            != name by {
            assert(parts[j].0 != name);
        }
    } else {
        assert forall|i: int| 0 <= i < members@.len() implies (#[trigger] members@[i]).0@
            != name by {
            assert(entries_map(parts).dom().contains(parts[i].0));
        }
    }
}

/// The layers of a parsed document stand for what they hold.
pub(crate) proof fn layers_stand_for_their_parts(
    b: bool,
    text: String,
    items: Vec<serde_json::Value>,
    members: Vec<(String, serde_json::Value)>,
    i: int,
)
    ensures
        JsonLayer::Null.contents() == JsonView::Null,
        JsonLayer::Bool(b).contents() == JsonView::Bool(b),
        JsonLayer::Number(text).contents() == JsonView::Number(text@),
        JsonLayer::String(text).contents() == JsonView::Text(text@),
        JsonLayer::Array(items).contents() is Array,
        JsonLayer::Array(items).contents()->Array_0.len() == items@.len(),
        0 <= i < items@.len() ==> JsonLayer::Array(items).contents()->Array_0[i]
            == value_contents(items@[i]),
        JsonLayer::Object(members).contents() is Object,
        0 <= i < members@.len() && (forall|j: int|
            i < j < members@.len() ==> (#[trigger] members@[j]).0@ != members@[i].0@) ==> {
            &&& JsonLayer::Object(members).contents()->Object_0.dom().contains(members@[i].0@)
            &&& JsonLayer::Object(members).contents()->Object_0[members@[i].0@] == value_contents(
                members@[i].1,
            )
        },
{
    let parts = value_members(members@);
    if 0 <= i < members@.len() && (forall|j: int|
        i < j < members@.len() ==> (#[trigger] members@[j]).0@ != members@[i].0@) {
        assert forall|j: int| i < j < parts.len() implies (#[trigger] parts[j]).0 != parts[i].0 by {
            assert(members@[j].0@ != members@[i].0@);
        }
        lemma_entries_map_last(parts, i);
    }
}

/// CBOR values and identifiers stand for what they hold.
pub proof fn cbor_values_stand_for_their_parts(
    n: i128,
    text: String,
    tag: u64,
    inner: CborValue,
    uuid: [u8; 16],
    bytes: Vec<u8>,
)
    ensures
        CborValue::Integer(n)@ == CborView::Integer(n as int),
        CborValue::Text(text)@ == CborView::Text(text@),
        CborValue::Tag(tag, Box::new(inner))@ == CborView::Tag(tag as int, Box::new(inner@)),
        CborValue::Other@ == CborView::Other,
        ClassId::Uuid(uuid)@ == ClassIdView::Uuid(uuid@),
        ClassId::Other@ == ClassIdView::Other,
        InstanceId::Bytes(bytes)@ == InstanceIdView::Bytes(bytes@),
        InstanceId::Other@ == InstanceIdView::Other,
{
    reveal_with_fuel(CborValue::contents, 2);
}

/// A list stands for its parts in their order.
pub proof fn lists_stand_for_their_parts(parts: Seq<Comid>, i: int)
    ensures
        views(parts).len() == parts.len(),
        0 <= i < parts.len() ==> views(parts)[i] == parts[i]@,
{
}

/// A measurement stands for its parts: key, security version, digests in their order, and
/// under each key of its extension entries the last entry that has it.
pub proof fn measurements_stand_for_their_parts(m: Measurement, i: int, key: int)
    ensures
        m@.mkey == m.mkey,
        m@.svn == m.svn,
        m@.digests is Some <==> m.digests is Some,
        m.digests is Some ==> m@.digests->0.len() == m.digests->0@.len(),
        m.digests is Some && 0 <= i < m.digests->0@.len() ==> m@.digests->0[i]
            == m.digests->0@[i]@,
        if m@.extra_entries.dom().contains(key) {
            exists|k: int|
                0 <= k < m.extra_entries@.len() && (#[trigger] m.extra_entries@[k]).0 == key
                    && m.extra_entries@[k].1@ == m@.extra_entries[key] && forall|j: int|
                    k < j < m.extra_entries@.len() ==> (#[trigger] m.extra_entries@[j]).0 != key
        } else {
            forall|k: int|
                0 <= k < m.extra_entries@.len() ==> (#[trigger] m.extra_entries@[k]).0 != key
        },
{
    let parts = extra_contents(m.extra_entries@);
    lemma_entries_map_keys(parts);
    if entries_map(parts).dom().contains(key) {
        let k = lemma_entries_map_position(parts, key);
        assert(m.extra_entries@[k].0 == key);
        assert forall|j: int| k < j < m.extra_entries@.len() implies (
        #[trigger] m.extra_entries@[j]).0 != key by {
            assert(parts[j].0 != key);
        }
    } else {
        assert forall|k: int| 0 <= k < m.extra_entries@.len() implies (
        #[trigger] m.extra_entries@[k]).0 != key by {
            assert(entries_map(parts).dom().contains(parts[k].0));
        }
    }
}

/// The parts of a CoMID tag stand for what they hold, each list in its order.
pub proof fn tags_stand_for_their_parts(
    environment: Environment,
    record: SeriesRecord,
    series: EndorsementSeries,
    values: ReferenceValues,
    comid: Comid,
    i: int,
)
    ensures
        environment@.class_id is Some <==> environment.class_id is Some,
        environment.class_id is Some ==> environment@.class_id->0 == environment.class_id->0@,
        environment@.instance is Some <==> environment.instance is Some,
        environment.instance is Some ==> environment@.instance->0 == environment.instance->0@,
        record@.selection.len() == record.selection@.len(),
        0 <= i < record.selection@.len() ==> record@.selection[i] == record.selection@[i]@,
        record@.addition.len() == record.addition@.len(),
        0 <= i < record.addition@.len() ==> record@.addition[i] == record.addition@[i]@,
        series@.environment == series.environment@,
        series@.series.len() == series.series@.len(),
        0 <= i < series.series@.len() ==> series@.series[i] == series.series@[i]@,
        values@.environment == values.environment@,
        values@.measurements.len() == values.measurements@.len(),
        0 <= i < values.measurements@.len() ==> values@.measurements[i]
            == values.measurements@[i]@,
        comid@.conditional_endorsement_series is Some
            <==> comid.conditional_endorsement_series is Some,
        comid.conditional_endorsement_series matches Some(list) ==> {
            &&& comid@.conditional_endorsement_series->0.len() == list@.len()
            &&& 0 <= i < list@.len() ==> comid@.conditional_endorsement_series->0[i] == list@[i]@
        },
        comid@.reference_triples is Some <==> comid.reference_triples is Some,
        comid.reference_triples matches Some(list) ==> {
            &&& comid@.reference_triples->0.len() == list@.len()
            &&& 0 <= i < list@.len() ==> comid@.reference_triples->0[i] == list@[i]@
        },
{
}

/// Identities and what is found for them stand for what they hold.
pub proof fn lookups_stand_for_their_parts(
    found: ServtdLookup,
    measurements: Measurements,
    hash: &[u8],
)
    ensures
        lookup_view(None) is None,
        lookup_view(Some(found)) is Some,
        lookup_view(Some(found))->0.isvsvn == found.isvsvn,
        lookup_view(Some(found))->0.tcb_date == found.tcb_date@,
        lookup_view(Some(found))->0.tcb_status == found.tcb_status@,
        (ServtdIdentity {
            measurements: Some(&measurements),
            servtd_info_hash: None,
        })@.measurements == Some(measurements.tdinfo_hash@),
        (ServtdIdentity {
            measurements: Some(&measurements),
            servtd_info_hash: None,
        })@.servtd_info_hash is None,
        (ServtdIdentity {
            measurements: None,
            servtd_info_hash: Some(hash),
        })@.measurements is None,
        (ServtdIdentity {
            measurements: None,
            servtd_info_hash: Some(hash),
        })@.servtd_info_hash == Some(hash@),
        (ServtdIdentity {
            measurements: Some(&measurements),
            servtd_info_hash: Some(hash),
        })@.measurements == Some(measurements.tdinfo_hash@),
        (ServtdIdentity {
            measurements: Some(&measurements),
            servtd_info_hash: Some(hash),
        })@.servtd_info_hash == Some(hash@),
{
}

} // verus!
