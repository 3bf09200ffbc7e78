//! The calls into `corim`, and the conversion of what it decodes.
use vstd::prelude::*;

use corim::cbor::value::Value;
use corim::error::ValidationError;
use corim::types::comid::ComidTag;
use corim::types::common::{ClassIdChoice, InstanceIdChoice, MeasuredElement};
use corim::types::environment::EnvironmentMap;
use corim::types::measurement::{Digest, MeasurementMap, SvnChoice};
use corim::types::triples::{
    ConditionalEndorsementSeriesTriple, ConditionalSeriesRecord, ReferenceTriple,
};

use crate::comid::{
    extra_contents, views, CborValue, CborView, ClassId, Comid, ComidView, EndorsementSeries,
    EndorsementSeriesView, Environment, EnvironmentView, InstanceId, Measurement, MeasurementKey,
    MeasurementView, ReferenceValues, ReferenceValuesView, SeriesRecord, SeriesRecordView, Svn,
};
use crate::entries::entries_map;

verus! {

#[verifier::external_type_specification]
#[verifier::external_body]
pub struct ExCborValue(corim::cbor::value::Value);

#[verifier::external_type_specification]
#[verifier::external_body]
pub struct ExDigest(corim::types::measurement::Digest);

#[verifier::external_type_specification]
#[verifier::external_body]
pub struct ExMeasurementMap(corim::types::measurement::MeasurementMap);

#[verifier::external_type_specification]
#[verifier::external_body]
pub struct ExEnvironmentMap(corim::types::environment::EnvironmentMap);

#[verifier::external_type_specification]
#[verifier::external_body]
pub struct ExConditionalSeriesRecord(corim::types::triples::ConditionalSeriesRecord);

#[verifier::external_type_specification]
#[verifier::external_body]
pub struct ExConditionalEndorsementSeriesTriple(
    corim::types::triples::ConditionalEndorsementSeriesTriple,
);

#[verifier::external_type_specification]
#[verifier::external_body]
pub struct ExReferenceTriple(corim::types::triples::ReferenceTriple);

#[verifier::external_type_specification]
#[verifier::external_body]
pub struct ExComidTag(corim::types::comid::ComidTag);

#[verifier::external_type_specification]
#[verifier::external_body]
pub struct ExValidationError(corim::error::ValidationError);

/// What a `corim` CBOR value is, as far as it is read.
pub uninterp spec fn cbor_contents(value: Value) -> CborView;

/// The value of a digest, without its algorithm.
pub uninterp spec fn digest_contents(digest: Digest) -> Seq<u8>;

/// What a `measurement-map` holds, as far as it is read.
pub uninterp spec fn measurement_contents(map: MeasurementMap) -> MeasurementView;

/// What an `environment-map` holds, as far as it is read.
pub uninterp spec fn environment_contents(map: EnvironmentMap) -> EnvironmentView;

/// What a `conditional-series-record` holds.
pub uninterp spec fn record_contents(record: ConditionalSeriesRecord) -> SeriesRecordView;

/// What a `conditional-endorsement-series-triple-record` holds, as far as it is read.
pub uninterp spec fn series_contents(
    triple: ConditionalEndorsementSeriesTriple,
) -> EndorsementSeriesView;

/// What a `reference-triple-record` holds.
pub uninterp spec fn reference_contents(triple: ReferenceTriple) -> ReferenceValuesView;

/// What a `concise-mid-tag` holds, as far as it is read.
pub uninterp spec fn comid_contents(tag: ComidTag) -> ComidView;

/// The CoMID tags that `corim::validate::decode_and_validate_at` reads from the bytes of a
/// CoRIM at a point in time, or nothing where it refuses them.
pub uninterp spec fn decoded_corim(bytes: Seq<u8>, now_epoch_secs: i64) -> Option<Seq<ComidView>>;

/// Calls `corim::validate::decode_and_validate_at`, which decodes a CoRIM and checks its
/// structure and its validity at the given time. Claimed: the CoMID tags are those that
/// `decoded_corim` names, there is at least one, and the call fails exactly where that
/// names none.
#[verifier::external_body]
fn decode_tags(bytes: &[u8], now_epoch_secs: i64) -> (r: Result<Vec<ComidTag>, ValidationError>)
    ensures
        match r {
            Ok(tags) => {
                &&& decoded_corim(bytes@, now_epoch_secs) == Some(
                    tags@.map_values(|tag: ComidTag| comid_contents(tag)),
                )
                &&& tags@.len() > 0
            },
            Err(_) => decoded_corim(bytes@, now_epoch_secs) is None,
        },
{
    corim::validate::decode_and_validate_at(bytes, now_epoch_secs).map(|decoded| decoded.1)
}

/// Takes a `ComidTag` apart: the two lists of its `triples` that are read. Claimed: the
/// tag holds them.
#[verifier::external_body]
fn open_comid(tag: ComidTag) -> (r: (
    Option<Vec<ConditionalEndorsementSeriesTriple>>,
    Option<Vec<ReferenceTriple>>,
))
    ensures
        comid_contents(tag) == (ComidView {
            conditional_endorsement_series: match r.0 {
                Some(list) => Some(
                    list@.map_values(
                        |t: ConditionalEndorsementSeriesTriple| series_contents(t),
                    ),
                ),
                None => None,
            },
            reference_triples: match r.1 {
                Some(list) => Some(list@.map_values(|t: ReferenceTriple| reference_contents(t))),
                None => None,
            },
        }),
{
    (tag.triples.conditional_endorsement_series, tag.triples.reference_triples)
}

/// Takes a `ConditionalEndorsementSeriesTriple` apart: the environment of its condition,
/// and its series. Claimed: the triple holds them.
#[verifier::external_body]
fn open_series(triple: ConditionalEndorsementSeriesTriple) -> (r: (
    EnvironmentMap,
    Vec<ConditionalSeriesRecord>,
))
    ensures
        series_contents(triple) == (EndorsementSeriesView {
            environment: environment_contents(r.0),
            series: r.1@.map_values(|record: ConditionalSeriesRecord| record_contents(record)),
        }),
{
    (triple.0.environment, triple.1)
}

/// Takes a `ConditionalSeriesRecord` apart: its selection and its addition. Claimed: the
/// record holds them.
#[verifier::external_body]
fn open_record(record: ConditionalSeriesRecord) -> (r: (Vec<MeasurementMap>, Vec<MeasurementMap>))
    ensures
        record_contents(record) == (SeriesRecordView {
            selection: r.0@.map_values(|map: MeasurementMap| measurement_contents(map)),
            addition: r.1@.map_values(|map: MeasurementMap| measurement_contents(map)),
        }),
{
    (record.0, record.1)
}

/// Takes a `ReferenceTriple` apart: its environment and its measurements. Claimed: the
/// triple holds them.
#[verifier::external_body]
fn open_reference(triple: ReferenceTriple) -> (r: (EnvironmentMap, Vec<MeasurementMap>))
    ensures
        reference_contents(triple) == (ReferenceValuesView {
            environment: environment_contents(r.0),
            measurements: r.1@.map_values(|map: MeasurementMap| measurement_contents(map)),
        }),
{
    (triple.0, triple.1)
}

/// Takes an `EnvironmentMap` apart: the class identifier of its class and its instance
/// identifier, one variant for one. Claimed: the map holds them.
#[verifier::external_body]
fn open_environment(map: EnvironmentMap) -> (r: Environment)
    ensures
        r@ == environment_contents(map),
{
    let class_id = match map.class.and_then(|class| class.class_id) {
        Some(ClassIdChoice::Uuid(uuid)) => Some(ClassId::Uuid(uuid)),
        Some(_) => Some(ClassId::Other),
        None => None,
    };
    let instance = match map.instance {
        Some(InstanceIdChoice::Bytes(bytes)) => Some(InstanceId::Bytes(bytes)),
        Some(_) => Some(InstanceId::Other),
        None => None,
    };
    Environment { class_id, instance }
}

/// The parts of a measurement, its digests and extension entries still unopened.
pub(crate) struct MeasurementLayer {
    pub(crate) mkey: Option<MeasurementKey>,
    pub(crate) svn: Option<Svn>,
    pub(crate) digests: Option<Vec<Digest>>,
    pub(crate) extra_entries: Vec<(i64, Value)>,
}

/// Takes a `MeasurementMap` apart: its key, and of its values the security version, the
/// digests and the extension entries. Claimed: the map holds them.
#[verifier::external_body]
fn open_measurement(map: MeasurementMap) -> (r: MeasurementLayer)
    ensures
        measurement_contents(map) == (MeasurementView {
            mkey: r.mkey,
            svn: r.svn,
            digests: match r.digests {
                Some(list) => Some(list@.map_values(|digest: Digest| digest_contents(digest))),
                None => None,
            },
            extra_entries: entries_map(
                r.extra_entries@.map_values(
                    |entry: (i64, Value)| (entry.0 as int, cbor_contents(entry.1)),
                ),
            ),
        }),
{
    let mkey = match map.mkey {
        Some(MeasuredElement::Uint(n)) => Some(MeasurementKey::Uint(n)),
        Some(_) => Some(MeasurementKey::Other),
        None => None,
    };
    let svn = match map.mval.svn {
        Some(SvnChoice::ExactValue(n)) => Some(Svn::Exact(n)),
        Some(_) => Some(Svn::Other),
        None => None,
    };
    let extra_entries = map.mval.extra_entries.into_iter().collect();
    MeasurementLayer { mkey, svn, digests: map.mval.digests, extra_entries }
}

/// Takes the value out of a `Digest`. Claimed: it is the value that the digest holds.
#[verifier::external_body]
fn open_digest(digest: Digest) -> (r: Vec<u8>)
    ensures
        r@ == digest_contents(digest),
{
    digest.1
}

/// The outermost layer of a CBOR value, what it tags still unopened.
pub(crate) enum CborLayer {
    Integer(i128),
    Text(String),
    Tag(u64, Value),
    Other,
}

/// Takes a CBOR `Value` apart, one variant for one. Claimed: the value is what its
/// outermost layer says.
#[verifier::external_body]
fn open_cbor(value: Value) -> (r: CborLayer)
    ensures
        cbor_contents(value) == (match r {
            CborLayer::Integer(n) => CborView::Integer(n as int),
            CborLayer::Text(text) => CborView::Text(text@),
            CborLayer::Tag(tag, inner) => CborView::Tag(
                tag as int,
                Box::new(cbor_contents(inner)),
            ),
            CborLayer::Other => CborView::Other,
        }),
{
    match value {
        Value::Integer(n) => CborLayer::Integer(n),
        Value::Text(text) => CborLayer::Text(text),
        Value::Tag(tag, inner) => CborLayer::Tag(tag, *inner),
        _ => CborLayer::Other,
    }
}

/// The CBOR value that a decoded one holds.
fn cbor_from(value: Value) -> (r: CborValue)
    ensures
        r@ == cbor_contents(value),
    decreases cbor_contents(value),
{
    let ghost whole = cbor_contents(value);
    match open_cbor(value) {
        CborLayer::Integer(n) => CborValue::Integer(n),
        CborLayer::Text(text) => CborValue::Text(text),
        CborLayer::Tag(tag, inner) => {
            assert(decreases_to!(whole => whole->Tag_1));
            CborValue::Tag(tag, Box::new(cbor_from(inner)))
        },
        CborLayer::Other => CborValue::Other,
    }
}

/// The values of decoded digests.
fn digests_from(digests: Vec<Digest>) -> (r: Vec<Vec<u8>>)
    ensures
        Seq::new(r@.len(), |i: int| r@[i]@) == digests@.map_values(
            |digest: Digest| digest_contents(digest),
        ),
{
    let ghost all = digests@;
    let mut out: Vec<Vec<u8>> = Vec::new();
    for digest in iter: digests
        invariant
            iter.seq() == all,
            out@.len() == iter.index(),
            forall|j: int| 0 <= j < out@.len() ==> (#[trigger] out@[j])@ == digest_contents(all[j]),
    {
        out.push(open_digest(digest));
    }
    out
}

/// The extension entries that decoded ones hold.
fn extra_entries_from(entries: Vec<(i64, Value)>) -> (r: Vec<(i64, CborValue)>)
    ensures
        extra_contents(r@) == entries@.map_values(
            |entry: (i64, Value)| (entry.0 as int, cbor_contents(entry.1)),
        ),
{
    let ghost all = entries@;
    let mut out: Vec<(i64, CborValue)> = Vec::new();
    for entry in iter: entries
        invariant
            iter.seq() == all,
            out@.len() == iter.index(),
            forall|j: int|
                0 <= j < out@.len() ==> (#[trigger] out@[j]).0 == all[j].0 && out@[j].1@
                    == cbor_contents(all[j].1),
    {
        let (key, value) = entry;
        out.push((key, cbor_from(value)));
    }
    out
}

/// The measurement that a decoded one holds.
fn measurement_from(map: MeasurementMap) -> (r: Measurement)
    ensures
        r@ == measurement_contents(map),
{
    let layer = open_measurement(map);
    let digests = match layer.digests {
        Some(digests) => Some(digests_from(digests)),
        None => None,
    };
    Measurement {
        mkey: layer.mkey,
        svn: layer.svn,
        digests,
        extra_entries: extra_entries_from(layer.extra_entries),
    }
}

/// The measurements that decoded ones hold.
fn measurements_from(list: Vec<MeasurementMap>) -> (r: Vec<Measurement>)
    ensures
        views(r@) == list@.map_values(|map: MeasurementMap| measurement_contents(map)),
{
    let ghost all = list@;
    let mut out: Vec<Measurement> = Vec::new();
    for part in iter: list
        invariant
            iter.seq() == all,
            out@.len() == iter.index(),
            forall|j: int|
                0 <= j < out@.len() ==> (#[trigger] out@[j])@ == measurement_contents(all[j]),
    {
        out.push(measurement_from(part));
    }
    out
}

/// The record that a decoded one holds.
fn record_from(record: ConditionalSeriesRecord) -> (r: SeriesRecord)
    ensures
        r@ == record_contents(record),
{
    let (selection, addition) = open_record(record);
    SeriesRecord {
        selection: measurements_from(selection),
        addition: measurements_from(addition),
    }
}

/// The records that decoded ones hold.
fn records_from(list: Vec<ConditionalSeriesRecord>) -> (r: Vec<SeriesRecord>)
    ensures
        views(r@) == list@.map_values(|record: ConditionalSeriesRecord| record_contents(record)),
{
    let ghost all = list@;
    let mut out: Vec<SeriesRecord> = Vec::new();
    for part in iter: list
        invariant
            iter.seq() == all,
            out@.len() == iter.index(),
            forall|j: int| 0 <= j < out@.len() ==> (#[trigger] out@[j])@ == record_contents(all[j]),
    {
        out.push(record_from(part));
    }
    out
}

/// The endorsement series that a decoded one holds.
fn series_from(triple: ConditionalEndorsementSeriesTriple) -> (r: EndorsementSeries)
    ensures
        r@ == series_contents(triple),
{
    let (environment, series) = open_series(triple);
    EndorsementSeries { environment: open_environment(environment), series: records_from(series) }
}

/// The endorsement series that decoded ones hold.
fn all_series_from(list: Vec<ConditionalEndorsementSeriesTriple>) -> (r: Vec<EndorsementSeries>)
    ensures
        views(r@) == list@.map_values(|t: ConditionalEndorsementSeriesTriple| series_contents(t)),
{
    let ghost all = list@;
    let mut out: Vec<EndorsementSeries> = Vec::new();
    for part in iter: list
        invariant
            iter.seq() == all,
            out@.len() == iter.index(),
            forall|j: int| 0 <= j < out@.len() ==> (#[trigger] out@[j])@ == series_contents(all[j]),
    {
        out.push(series_from(part));
    }
    out
}

/// The reference values that decoded ones hold.
fn reference_from(triple: ReferenceTriple) -> (r: ReferenceValues)
    ensures
        r@ == reference_contents(triple),
{
    let (environment, measurements) = open_reference(triple);
    ReferenceValues {
        environment: open_environment(environment),
        measurements: measurements_from(measurements),
    }
}

/// The reference values that decoded ones hold.
fn references_from(list: Vec<ReferenceTriple>) -> (r: Vec<ReferenceValues>)
    ensures
        views(r@) == list@.map_values(|t: ReferenceTriple| reference_contents(t)),
{
    let ghost all = list@;
    let mut out: Vec<ReferenceValues> = Vec::new();
    for part in iter: list
        invariant
            iter.seq() == all,
            out@.len() == iter.index(),
            forall|j: int|
                0 <= j < out@.len() ==> (#[trigger] out@[j])@ == reference_contents(all[j]),
    {
        out.push(reference_from(part));
    }
    out
}

/// The CoMID tag that a decoded one holds.
fn comid_from(tag: ComidTag) -> (r: Comid)
    ensures
        r@ == comid_contents(tag),
{
    let (series, references) = open_comid(tag);
    Comid {
        conditional_endorsement_series: match series {
            Some(list) => Some(all_series_from(list)),
            None => None,
        },
        reference_triples: match references {
            Some(list) => Some(references_from(list)),
            None => None,
        },
    }
}

/// The CoMID tags that decoded ones hold.
fn comids_from(list: Vec<ComidTag>) -> (r: Vec<Comid>)
    ensures
        views(r@) == list@.map_values(|tag: ComidTag| comid_contents(tag)),
{
    let ghost all = list@;
    let mut out: Vec<Comid> = Vec::new();
    for part in iter: list
        invariant
            iter.seq() == all,
            out@.len() == iter.index(),
            forall|j: int| 0 <= j < out@.len() ==> (#[trigger] out@[j])@ == comid_contents(all[j]),
    {
        out.push(comid_from(part));
    }
    out
}

/// The CoMID tags of a CoRIM, or nothing where it does not decode or is not valid at the
/// given time.
pub(crate) fn decode_comids(bytes: &[u8], now_epoch_secs: i64) -> (r: Option<Vec<Comid>>)
    ensures
        match r {
            Some(comids) => {
                &&& decoded_corim(bytes@, now_epoch_secs) == Some(views(comids@))
                &&& comids@.len() > 0
            },
            None => decoded_corim(bytes@, now_epoch_secs) is None,
        },
{
    match decode_tags(bytes, now_epoch_secs) {
        Ok(tags) => {
            let comids = comids_from(tags);
            assert(views(comids@).len() == comids@.len());
            Some(comids)
        },
        Err(_) => None,
    }
}

/// The key of the extension entry that holds the date of a TCB level.
pub open spec fn tcb_date_key() -> int {
    -72
}

/// The key of the extension entry that holds the status of a TCB level.
pub open spec fn tcb_status_key() -> int {
    -88
}

/// Reads `corim::profile::intel::MVAL_TEE_TCBDATE`. Claimed: its value.
#[verifier::external_body]
pub(crate) fn mval_tee_tcbdate() -> (key: i64)
    ensures
        key == tcb_date_key(),
{
    corim::profile::intel::MVAL_TEE_TCBDATE
}

/// Reads `corim::profile::intel::MVAL_TEE_TCBSTATUS`. Claimed: its value.
#[verifier::external_body]
pub(crate) fn mval_tee_tcbstatus() -> (key: i64)
    ensures
        key == tcb_status_key(),
{
    corim::profile::intel::MVAL_TEE_TCBSTATUS
}

} // verus!
