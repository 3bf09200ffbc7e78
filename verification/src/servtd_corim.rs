//! Service-TD collateral from two CoRIM documents.
//!
//! The TCB mapping says which security version a `SERVTD_INFO_HASH` has. Each release
//! stands in the `servtd-hash` environment as an endorsement series whose one record selects
//! on the digest and adds the security version. The TD identity says which TCB level a
//! security version has: in the `svn-tcb` environment, one measurement per security
//! version, with the date and the status of the level as extension entries. Both
//! environments have one class identifier and differ in their instance.
//!
//! The envelope around the documents is verified elsewhere, before they come here.
use vstd::prelude::*;

use crate::bytes::bytes_eq;
use crate::calendar::{epoch_to_iso8601, iso8601};
use crate::comid::{
    views, CborValue, CborView, ClassId, ClassIdView, Comid, ComidView, EndorsementSeries,
    EndorsementSeriesView, Environment, EnvironmentView, InstanceId, InstanceIdView, Measurement,
    MeasurementKey, MeasurementView, ReferenceValues, ReferenceValuesView, SeriesRecord,
    SeriesRecordView, Svn,
};
use crate::corim_codec::{
    decode_comids, decoded_corim, mval_tee_tcbdate, mval_tee_tcbstatus, tcb_date_key,
    tcb_status_key,
};
use crate::error::PolicyError;

verus! {

/// The class identifier of both environments.
pub const SERVTD_HASH_CLASS_UUID: [u8; 16] = [
    0x7f, 0xb0, 0x0e, 0xe4, 0xa7, 0xff, 0x11, 0xed, 0x9e, 0x2f, 0x00, 0x15, 0x5d, 0x09, 0xde, 0x56,
];

/// The instance of the environment of the TCB mapping: `servtd-hash` in ASCII.
pub const SERVTD_HASH_INSTANCE_BYTES: &'static [u8; 11] = &[
    0x73, 0x65, 0x72, 0x76, 0x74, 0x64, 0x2d, 0x68, 0x61, 0x73, 0x68,
];

/// The instance of the environment of the TD identity: `svn-tcb` in ASCII.
pub const SVN_TCB_INSTANCE_BYTES: &'static [u8; 7] = &[0x73, 0x76, 0x6e, 0x2d, 0x74, 0x63, 0x62];

/// Whether an environment is the one with the given instance.
pub open spec fn in_environment(environment: EnvironmentView, instance: Seq<u8>) -> bool {
    &&& environment.class_id == Some(ClassIdView::Uuid(SERVTD_HASH_CLASS_UUID@))
    &&& environment.instance == Some(InstanceIdView::Bytes(instance))
}

/// The value of the first digest of a measurement.
pub open spec fn first_digest(m: MeasurementView) -> Option<Seq<u8>> {
    match m.digests {
        Some(digests) => if digests.len() > 0 {
            Some(digests[0])
        } else {
            None
        },
        None => None,
    }
}

/// The security version of a measurement, where it is exact.
pub open spec fn exact_svn(m: MeasurementView) -> Option<u64> {
    match m.svn {
        Some(Svn::Exact(n)) => Some(n),
        _ => None,
    }
}

/// Whether a record selects on a hash: the first digest of its first selection is it.
pub open spec fn selects(record: SeriesRecordView, hash: Seq<u8>) -> bool {
    record.selection.len() > 0 && first_digest(record.selection[0]) == Some(hash)
}

/// The security version that a record adds: that of its first addition.
pub open spec fn added_svn(record: SeriesRecordView) -> Option<u64> {
    if record.addition.len() > 0 {
        exact_svn(record.addition[0])
    } else {
        None
    }
}

/// The security version that an endorsement series gives a hash: the one that its first
/// record adds, where that record selects on the hash. No other record is looked at. The
/// series speaks of hashes in the environment of the TCB mapping only, and a security
/// version has sixteen bits.
pub open spec fn series_svn(series: EndorsementSeriesView, hash: Seq<u8>) -> Option<u16> {
    if in_environment(series.environment, SERVTD_HASH_INSTANCE_BYTES@) && series.series.len() > 0
        && selects(series.series[0], hash) {
        match added_svn(series.series[0]) {
            Some(svn) => if svn <= u16::MAX {
                Some(svn as u16)
            } else {
                None
            },
            None => None,
        }
    } else {
        None
    }
}

/// What the first endorsement series from position `i` on gives a hash, of those that
/// give it a security version.
pub open spec fn all_series_svn(
    all: Seq<EndorsementSeriesView>,
    hash: Seq<u8>,
    i: int,
) -> Option<u16>
    decreases all.len() - i,
{
    if 0 <= i < all.len() {
        if series_svn(all[i], hash) is Some {
            series_svn(all[i], hash)
        } else {
            all_series_svn(all, hash, i + 1)
        }
    } else {
        None
    }
}

/// What a CoMID tag gives a hash.
pub open spec fn comid_svn(comid: ComidView, hash: Seq<u8>) -> Option<u16> {
    match comid.conditional_endorsement_series {
        Some(all) => all_series_svn(all, hash, 0),
        None => None,
    }
}

/// What the first CoMID tag from position `i` on gives a hash, of those that give it a
/// security version.
pub open spec fn comids_svn(comids: Seq<ComidView>, hash: Seq<u8>, i: int) -> Option<u16>
    decreases comids.len() - i,
{
    if 0 <= i < comids.len() {
        if comid_svn(comids[i], hash) is Some {
            comid_svn(comids[i], hash)
        } else {
            comids_svn(comids, hash, i + 1)
        }
    } else {
        None
    }
}

/// Whether a measurement is that of a security version.
pub open spec fn is_of_svn(m: MeasurementView, svn: u16) -> bool {
    m.mkey == Some(MeasurementKey::Uint(svn as u64))
}

/// The seconds since 1970-01-01T00:00:00Z that a CBOR value stands for: an integer, bare
/// or tagged as an epoch-based time.
pub open spec fn epoch_seconds(value: CborView) -> Option<i64> {
    let inner = match value {
        CborView::Tag(tag, inner) => if tag == 1 {
            *inner
        } else {
            value
        },
        _ => value,
    };
    match inner {
        CborView::Integer(n) => if i64::MIN <= n <= i64::MAX {
            Some(n as i64)
        } else {
            None
        },
        _ => None,
    }
}

/// The date, as a timestamp, and the status of the TCB level that a measurement holds.
pub open spec fn measured_level(m: MeasurementView) -> Option<(Seq<char>, Seq<char>)> {
    if m.extra_entries.dom().contains(tcb_date_key()) && m.extra_entries.dom().contains(
        tcb_status_key(),
    ) {
        match (epoch_seconds(m.extra_entries[tcb_date_key()]), m.extra_entries[tcb_status_key()]) {
            (Some(epoch), CborView::Text(status)) => Some((iso8601(epoch as int), status)),
            _ => None,
        }
    } else {
        None
    }
}

/// The first measurement of a security version from position `i` on.
pub open spec fn measurement_of_svn(
    measurements: Seq<MeasurementView>,
    svn: u16,
    i: int,
) -> Option<MeasurementView>
    decreases measurements.len() - i,
{
    if 0 <= i < measurements.len() {
        if is_of_svn(measurements[i], svn) {
            Some(measurements[i])
        } else {
            measurement_of_svn(measurements, svn, i + 1)
        }
    } else {
        None
    }
}

/// The first measurement of a security version in the reference values from position `i`
/// on, of those in the environment of the TD identity.
pub open spec fn referenced_measurement(
    all: Seq<ReferenceValuesView>,
    svn: u16,
    i: int,
) -> Option<MeasurementView>
    decreases all.len() - i,
{
    if 0 <= i < all.len() {
        if in_environment(all[i].environment, SVN_TCB_INSTANCE_BYTES@) && measurement_of_svn(
            all[i].measurements,
            svn,
            0,
        ) is Some {
            measurement_of_svn(all[i].measurements, svn, 0)
        } else {
            referenced_measurement(all, svn, i + 1)
        }
    } else {
        None
    }
}

/// The first measurement of a security version in a CoMID tag.
pub open spec fn comid_measurement(comid: ComidView, svn: u16) -> Option<MeasurementView> {
    match comid.reference_triples {
        Some(all) => referenced_measurement(all, svn, 0),
        None => None,
    }
}

/// The first measurement of a security version in the CoMID tags from position `i` on.
pub open spec fn comids_measurement(
    comids: Seq<ComidView>,
    svn: u16,
    i: int,
) -> Option<MeasurementView>
    decreases comids.len() - i,
{
    if 0 <= i < comids.len() {
        if comid_measurement(comids[i], svn) is Some {
            comid_measurement(comids[i], svn)
        } else {
            comids_measurement(comids, svn, i + 1)
        }
    } else {
        None
    }
}

/// The TCB level of a security version: that of its first measurement.
pub open spec fn comids_level(comids: Seq<ComidView>, svn: u16) -> Option<(Seq<char>, Seq<char>)> {
    match comids_measurement(comids, svn, 0) {
        Some(m) => measured_level(m),
        None => None,
    }
}

/// Whether an environment is the one with the given instance.
pub fn env_matches(environment: &Environment, instance: &[u8]) -> (r: bool)
    ensures
        r == in_environment(environment@, instance@),
{
    let class_ok = match &environment.class_id {
        Some(ClassId::Uuid(uuid)) => bytes_eq(uuid, &SERVTD_HASH_CLASS_UUID),
        _ => false,
    };
    let instance_ok = match &environment.instance {
        Some(InstanceId::Bytes(bytes)) => bytes_eq(bytes.as_slice(), instance),
        _ => false,
    };
    class_ok && instance_ok
}

/// Whether an environment is that of the TCB mapping.
pub fn is_servtd_hash_environment(environment: &Environment) -> (r: bool)
    ensures
        r == in_environment(environment@, SERVTD_HASH_INSTANCE_BYTES@),
{
    env_matches(environment, SERVTD_HASH_INSTANCE_BYTES)
}

/// Whether an environment is that of the TD identity.
pub fn is_svn_tcb_environment(environment: &Environment) -> (r: bool)
    ensures
        r == in_environment(environment@, SVN_TCB_INSTANCE_BYTES@),
{
    env_matches(environment, SVN_TCB_INSTANCE_BYTES)
}

/// The value of the first digest of a measurement.
fn digest_value(m: &Measurement) -> (r: Option<&[u8]>)
    ensures
        match r {
            Some(value) => first_digest(m@) == Some(value@),
            None => first_digest(m@) is None,
        },
{
    match &m.digests {
        Some(digests) => if digests.len() > 0 {
            Some(digests[0].as_slice())
        } else {
            None
        },
        None => None,
    }
}

/// The security version of a measurement, where it is exact.
fn svn_exact(m: &Measurement) -> (r: Option<u64>)
    ensures
        r == exact_svn(m@),
{
    match m.svn {
        Some(Svn::Exact(n)) => Some(n),
        _ => None,
    }
}

/// The security version that a measurement is of.
fn measurement_svn(m: &Measurement) -> (r: Option<u64>)
    ensures
        r == match m@.mkey {
            Some(MeasurementKey::Uint(n)) => Some(n),
            _ => None,
        },
{
    match m.mkey {
        Some(MeasurementKey::Uint(n)) => Some(n),
        _ => None,
    }
}

/// The security version that an endorsement series gives a hash: where it is in the
/// environment of the TCB mapping and its first record selects on the hash, the one that
/// this record adds.
pub fn ces_svn_for_hash(series: &EndorsementSeries, hash: &[u8]) -> (r: Option<u16>)
    ensures
        r == series_svn(series@, hash@),
{
    if !is_servtd_hash_environment(&series.environment) || series.series.len() == 0 {
        return None;
    }
    let record: &SeriesRecord = &series.series[0];
    assert(series@.series[0] == record@);
    if record.selection.len() == 0 || record.addition.len() == 0 {
        return None;
    }
    let value = digest_value(&record.selection[0])?;
    if !bytes_eq(value, hash) {
        return None;
    }
    let svn = svn_exact(&record.addition[0])?;
    if svn <= u16::MAX as u64 {
        Some(svn as u16)
    } else {
        None
    }
}

/// The seconds since 1970-01-01T00:00:00Z that a CBOR value stands for.
pub fn read_epoch(value: &CborValue) -> (r: Option<i64>)
    ensures
        r == epoch_seconds(value@),
{
    proof {
        reveal_with_fuel(CborValue::contents, 2);
    }
    let inner = match value {
        CborValue::Tag(1, inner) => &**inner,
        other => other,
    };
    match inner {
        CborValue::Integer(n) => if i64::MIN as i128 <= *n && *n <= i64::MAX as i128 {
            Some(*n as i64)
        } else {
            None
        },
        _ => None,
    }
}

/// The date, as a timestamp, and the status of the TCB level that a measurement holds.
pub fn measurement_level(m: &Measurement) -> (r: Option<(String, String)>)
    ensures
        match r {
            Some(level) => measured_level(m@) == Some((level.0@, level.1@)),
            None => measured_level(m@) is None,
        },
{
    let date = m.extra_entry(mval_tee_tcbdate())?;
    let epoch = read_epoch(date)?;
    match m.extra_entry(mval_tee_tcbstatus())? {
        CborValue::Text(status) => Some((epoch_to_iso8601(epoch), status.clone())),
        _ => None,
    }
}

/// What a list of endorsement series gives a hash.
fn list_svn_for_hash(list: &Vec<EndorsementSeries>, hash: &[u8]) -> (r: Option<u16>)
    ensures
        r == all_series_svn(views(list@), hash@, 0),
{
    let mut i: usize = 0;
    while i < list.len()
        invariant
            i <= list@.len(),
            all_series_svn(views(list@), hash@, 0) == all_series_svn(
                views(list@),
                hash@,
                i as int,
            ),
        decreases list@.len() - i,
    {
        assert(views(list@)[i as int] == list@[i as int]@);
        if let Some(svn) = ces_svn_for_hash(&list[i], hash) {
            return Some(svn);
        }
        i += 1;
    }
    None
}

/// The first measurement of a security version in a list.
fn find_measurement(list: &Vec<Measurement>, svn: u16) -> (r: Option<&Measurement>)
    ensures
        match r {
            Some(m) => measurement_of_svn(views(list@), svn, 0) == Some(m@),
            None => measurement_of_svn(views(list@), svn, 0) is None,
        },
{
    let mut i: usize = 0;
    while i < list.len()
        invariant
            i <= list@.len(),
            measurement_of_svn(views(list@), svn, 0) == measurement_of_svn(
                views(list@),
                svn,
                i as int,
            ),
        decreases list@.len() - i,
    {
        assert(views(list@)[i as int] == list@[i as int]@);
        if let Some(n) = measurement_svn(&list[i]) {
            if n == svn as u64 {
                return Some(&list[i]);
            }
        }
        i += 1;
    }
    None
}

/// The first measurement of a security version in reference values.
fn find_referenced(list: &Vec<ReferenceValues>, svn: u16) -> (r: Option<&Measurement>)
    ensures
        match r {
            Some(m) => referenced_measurement(views(list@), svn, 0) == Some(m@),
            None => referenced_measurement(views(list@), svn, 0) is None,
        },
{
    let mut i: usize = 0;
    while i < list.len()
        invariant
            i <= list@.len(),
            referenced_measurement(views(list@), svn, 0) == referenced_measurement(
                views(list@),
                svn,
                i as int,
            ),
        decreases list@.len() - i,
    {
        assert(views(list@)[i as int] == list@[i as int]@);
        if is_svn_tcb_environment(&list[i].environment) {
            if let Some(m) = find_measurement(&list[i].measurements, svn) {
                return Some(m);
            }
        }
        i += 1;
    }
    None
}

/// The two documents of service-TD collateral: the TCB mapping and the TD identity.
pub struct CorimView {
    pub tcb_mapping: Seq<ComidView>,
    pub td_identity: Seq<ComidView>,
}

/// Service-TD collateral decoded from two CoRIM documents: the TCB mapping, from hash to
/// security version, and the TD identity, from security version to TCB level.
#[derive(Debug, PartialEq, Eq)]
pub struct ServtdCorim {
    tcb_mapping: Vec<Comid>,
    td_identity: Vec<Comid>,
}

impl View for ServtdCorim {
    type V = CorimView;

    closed spec fn view(&self) -> CorimView {
        CorimView { tcb_mapping: views(self.tcb_mapping@), td_identity: views(self.td_identity@) }
    }
}

impl ServtdCorim {
    /// The collateral of the CoMID tags of two documents, each decoded or refused. A
    /// refused TCB mapping is reported before a refused TD identity.
    pub fn from_decoded(
        tcb_mapping: Option<Vec<Comid>>,
        td_identity: Option<Vec<Comid>>,
    ) -> (r: Result<Self, PolicyError>)
        ensures
            match (tcb_mapping, td_identity) {
                (Some(mapping), Some(identity)) => r is Ok && r->Ok_0@ == (CorimView {
                    tcb_mapping: views(mapping@),
                    td_identity: views(identity@),
                }),
                (None, _) => r == Err::<Self, PolicyError>(PolicyError::InvalidServtdTcbMapping),
                (Some(_), None) => r == Err::<Self, PolicyError>(
                    PolicyError::InvalidServtdIdentity,
                ),
            },
    {
        let tcb_mapping = match tcb_mapping {
            Some(comids) => comids,
            None => return Err(PolicyError::InvalidServtdTcbMapping),
        };
        let td_identity = match td_identity {
            Some(comids) => comids,
            None => return Err(PolicyError::InvalidServtdIdentity),
        };
        Ok(ServtdCorim { tcb_mapping, td_identity })
    }

    /// Decodes the two documents and checks their structure, and their validity at the
    /// time `now_epoch_secs`. The signed envelope around them is not looked at here.
    pub fn decode(
        tcb_mapping_cbor: &[u8],
        td_identity_cbor: &[u8],
        now_epoch_secs: i64,
    ) -> (r: Result<Self, PolicyError>)
        ensures
            match (
                decoded_corim(tcb_mapping_cbor@, now_epoch_secs),
                decoded_corim(td_identity_cbor@, now_epoch_secs),
            ) {
                (Some(mapping), Some(identity)) => {
                    &&& r is Ok
                    &&& r->Ok_0@ == (CorimView { tcb_mapping: mapping, td_identity: identity })
                    &&& mapping.len() > 0
                    &&& identity.len() > 0
                },
                (None, _) => r == Err::<Self, PolicyError>(PolicyError::InvalidServtdTcbMapping),
                (Some(_), None) => r == Err::<Self, PolicyError>(
                    PolicyError::InvalidServtdIdentity,
                ),
            },
    {
        let tcb_mapping = decode_comids(tcb_mapping_cbor, now_epoch_secs);
        if tcb_mapping.is_none() {
            return Err(PolicyError::InvalidServtdTcbMapping);
        }
        let td_identity = decode_comids(td_identity_cbor, now_epoch_secs);
        Self::from_decoded(tcb_mapping, td_identity)
    }

    /// The security version of a `SERVTD_INFO_HASH`. The digest is matched by its value
    /// alone, whatever algorithm it is labelled with.
    pub fn svn_for_hash(&self, hash: &[u8]) -> (r: Option<u16>)
        ensures
            r == comids_svn(self@.tcb_mapping, hash@, 0),
    {
        let mut i: usize = 0;
        while i < self.tcb_mapping.len()
            invariant
                i <= self.tcb_mapping@.len(),
                comids_svn(self@.tcb_mapping, hash@, 0) == comids_svn(
                    self@.tcb_mapping,
                    hash@,
                    i as int,
                ),
            decreases self.tcb_mapping@.len() - i,
        {
            assert(self@.tcb_mapping[i as int] == self.tcb_mapping@[i as int]@);
            if let Some(list) = &self.tcb_mapping[i].conditional_endorsement_series {
                if let Some(svn) = list_svn_for_hash(list, hash) {
                    return Some(svn);
                }
            }
            i += 1;
        }
        None
    }

    /// The date, as a timestamp, and the status of the TCB level of a security version.
    pub fn level_for_svn(&self, svn: u16) -> (r: Option<(String, String)>)
        ensures
            match r {
                Some(level) => comids_level(self@.td_identity, svn) == Some((level.0@, level.1@)),
                None => comids_level(self@.td_identity, svn) is None,
            },
    {
        let mut i: usize = 0;
        while i < self.td_identity.len()
            invariant
                i <= self.td_identity@.len(),
                comids_measurement(self@.td_identity, svn, 0) == comids_measurement(
                    self@.td_identity,
                    svn,
                    i as int,
                ),
            decreases self.td_identity@.len() - i,
        {
            assert(self@.td_identity[i as int] == self.td_identity@[i as int]@);
            if let Some(list) = &self.td_identity[i].reference_triples {
                if let Some(m) = find_referenced(list, svn) {
                    return measurement_level(m);
                }
            }
            i += 1;
        }
        None
    }

    /// The number of CoMID tags in each document.
    pub fn comid_counts(&self) -> (r: (usize, usize))
        ensures
            r.0 == self@.tcb_mapping.len(),
            r.1 == self@.td_identity.len(),
    {
        (self.tcb_mapping.len(), self.td_identity.len())
    }
}

} // verus!
