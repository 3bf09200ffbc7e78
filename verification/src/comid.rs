//! The parts of a CoMID tag that service-TD collateral is read from: its reference
//! triples and its conditional endorsement series.
use vstd::prelude::*;

use crate::entries::{entries_map, lemma_entries_map_last, lemma_entries_map_position};

verus! {

/// A CBOR value, as far as it is read.
pub enum CborView {
    Integer(int),
    Text(Seq<char>),
    Tag(int, Box<CborView>),
    Other,
}

/// A CBOR value, as far as it is read: an integer, a text, or a tagged value. Any other
/// value is `Other`.
#[derive(Debug, PartialEq, Eq)]
pub enum CborValue {
    Integer(i128),
    Text(String),
    Tag(u64, Box<CborValue>),
    Other,
}

impl CborValue {
    /// What the value is.
    pub open spec fn contents(self) -> CborView
        decreases self,
    {
        match self {
            CborValue::Integer(n) => CborView::Integer(n as int),
            CborValue::Text(text) => CborView::Text(text@),
            CborValue::Tag(tag, inner) => CborView::Tag(tag as int, Box::new(inner.contents())),
            CborValue::Other => CborView::Other,
        }
    }
}

impl View for CborValue {
    type V = CborView;

    open spec fn view(&self) -> CborView {
        self.contents()
    }
}

/// The class identifier of an environment: a UUID, or of another kind.
pub enum ClassIdView {
    Uuid(Seq<u8>),
    Other,
}

/// The class identifier of an environment: a UUID, or of another kind.
#[derive(Clone, Copy, Debug, PartialEq, Eq)]
pub enum ClassId {
    Uuid([u8; 16]),
    Other,
}

impl View for ClassId {
    type V = ClassIdView;

    open spec fn view(&self) -> ClassIdView {
        match *self {
            ClassId::Uuid(uuid) => ClassIdView::Uuid(uuid@),
            ClassId::Other => ClassIdView::Other,
        }
    }
}

/// The instance identifier of an environment: plain bytes, or of another kind.
pub enum InstanceIdView {
    Bytes(Seq<u8>),
    Other,
}

/// The instance identifier of an environment: plain bytes, or of another kind.
#[derive(Debug, PartialEq, Eq)]
pub enum InstanceId {
    Bytes(Vec<u8>),
    Other,
}

impl View for InstanceId {
    type V = InstanceIdView;

    open spec fn view(&self) -> InstanceIdView {
        match *self {
            InstanceId::Bytes(bytes) => InstanceIdView::Bytes(bytes@),
            InstanceId::Other => InstanceIdView::Other,
        }
    }
}

/// The environment that a triple speaks of.
pub struct EnvironmentView {
    pub class_id: Option<ClassIdView>,
    pub instance: Option<InstanceIdView>,
}

/// The environment that a triple speaks of.
#[derive(Debug, PartialEq, Eq)]
pub struct Environment {
    pub class_id: Option<ClassId>,
    pub instance: Option<InstanceId>,
}

impl View for Environment {
    type V = EnvironmentView;

    open spec fn view(&self) -> EnvironmentView {
        EnvironmentView {
            class_id: match self.class_id {
                Some(id) => Some(id@),
                None => None,
            },
            instance: match self.instance {
                Some(id) => Some(id@),
                None => None,
            },
        }
    }
}

/// What a measurement is of: a number, or of another kind.
#[derive(Clone, Copy, Debug, PartialEq, Eq, Structural)]
pub enum MeasurementKey {
    Uint(u64),
    Other,
}

/// The security version of a measurement: exact, or of another kind.
#[derive(Clone, Copy, Debug, PartialEq, Eq, Structural)]
pub enum Svn {
    Exact(u64),
    Other,
}

/// A measurement: what it is of, its security version, its digests, and its extension
/// entries by their keys.
pub struct MeasurementView {
    pub mkey: Option<MeasurementKey>,
    pub svn: Option<Svn>,
    pub digests: Option<Seq<Seq<u8>>>,
    pub extra_entries: Map<int, CborView>,
}

/// A measurement: what it is of, its security version, the values of its digests, and
/// its extension entries. Where a key occurs more than once, its last entry counts.
#[derive(Debug, PartialEq, Eq)]
pub struct Measurement {
    pub mkey: Option<MeasurementKey>,
    pub svn: Option<Svn>,
    pub digests: Option<Vec<Vec<u8>>>,
    pub extra_entries: Vec<(i64, CborValue)>,
}

/// The extension entries of a measurement, as `entries_map` takes them.
pub open spec fn extra_contents(entries: Seq<(i64, CborValue)>) -> Seq<(int, CborView)> {
    Seq::new(entries.len(), |i: int| (entries[i].0 as int, entries[i].1@))
}

impl View for Measurement {
    type V = MeasurementView;

    open spec fn view(&self) -> MeasurementView {
        MeasurementView {
            mkey: self.mkey,
            svn: self.svn,
            digests: match self.digests {
                Some(digests) => Some(Seq::new(digests@.len(), |i: int| digests@[i]@)),
                None => None,
            },
            extra_entries: entries_map(extra_contents(self.extra_entries@)),
        }
    }
}

/// The views of the parts of a list.
pub open spec fn views<T: View>(parts: Seq<T>) -> Seq<T::V> {
    Seq::new(parts.len(), |i: int| parts[i]@)
}

/// One record of an endorsement series: where the first list selects, the second holds.
pub struct SeriesRecordView {
    pub selection: Seq<MeasurementView>,
    pub addition: Seq<MeasurementView>,
}

/// One record of an endorsement series: where the first list selects, the second holds.
#[derive(Debug, PartialEq, Eq)]
pub struct SeriesRecord {
    pub selection: Vec<Measurement>,
    pub addition: Vec<Measurement>,
}

impl View for SeriesRecord {
    type V = SeriesRecordView;

    open spec fn view(&self) -> SeriesRecordView {
        SeriesRecordView { selection: views(self.selection@), addition: views(self.addition@) }
    }
}

/// A conditional endorsement series: the environment it speaks of, and its records.
pub struct EndorsementSeriesView {
    pub environment: EnvironmentView,
    pub series: Seq<SeriesRecordView>,
}

/// A conditional endorsement series: the environment it speaks of, and its records.
#[derive(Debug, PartialEq, Eq)]
pub struct EndorsementSeries {
    pub environment: Environment,
    pub series: Vec<SeriesRecord>,
}

impl View for EndorsementSeries {
    type V = EndorsementSeriesView;

    open spec fn view(&self) -> EndorsementSeriesView {
        EndorsementSeriesView { environment: self.environment@, series: views(self.series@) }
    }
}

/// Reference values: the environment they speak of, and the measurements.
pub struct ReferenceValuesView {
    pub environment: EnvironmentView,
    pub measurements: Seq<MeasurementView>,
}

/// Reference values: the environment they speak of, and the measurements.
#[derive(Debug, PartialEq, Eq)]
pub struct ReferenceValues {
    pub environment: Environment,
    pub measurements: Vec<Measurement>,
}

impl View for ReferenceValues {
    type V = ReferenceValuesView;

    open spec fn view(&self) -> ReferenceValuesView {
        ReferenceValuesView {
            environment: self.environment@,
            measurements: views(self.measurements@),
        }
    }
}

/// A CoMID tag: its conditional endorsement series and its reference triples.
pub struct ComidView {
    pub conditional_endorsement_series: Option<Seq<EndorsementSeriesView>>,
    pub reference_triples: Option<Seq<ReferenceValuesView>>,
}

/// A CoMID tag: its conditional endorsement series and its reference triples.
#[derive(Debug, PartialEq, Eq)]
pub struct Comid {
    pub conditional_endorsement_series: Option<Vec<EndorsementSeries>>,
    pub reference_triples: Option<Vec<ReferenceValues>>,
}

impl View for Comid {
    type V = ComidView;

    open spec fn view(&self) -> ComidView {
        ComidView {
            conditional_endorsement_series: match self.conditional_endorsement_series {
                Some(list) => Some(views(list@)),
                None => None,
            },
            reference_triples: match self.reference_triples {
                Some(list) => Some(views(list@)),
                None => None,
            },
        }
    }
}

impl Measurement {
    /// The extension entry with the key `key`.
    pub fn extra_entry(&self, key: i64) -> (r: Option<&CborValue>)
        ensures
            match r {
                Some(value) => {
                    &&& self@.extra_entries.dom().contains(key as int)
                    &&& self@.extra_entries[key as int] == value@
                },
                None => !self@.extra_entries.dom().contains(key as int),
            },
    {
        let ghost parts = extra_contents(self.extra_entries@);
        let mut i: usize = self.extra_entries.len();
        while i > 0
            invariant
                i <= self.extra_entries@.len(),
                parts == extra_contents(self.extra_entries@),
                forall|j: int| i <= j < parts.len() ==> (#[trigger] parts[j]).0 != key,
            decreases i,
        {
            i -= 1;
            if self.extra_entries[i].0 == key {
                proof {
                    assert(parts[i as int].0 == key);
                    lemma_entries_map_last(parts, i as int);
                }
                return Some(&self.extra_entries[i].1);
            }
        }
        proof {
            if entries_map(parts).dom().contains(key as int) {
                let j = lemma_entries_map_position(parts, key as int);
                assert(parts[j].0 == key);
            }
        }
        None
    }
}

} // verus!
