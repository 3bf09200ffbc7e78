//! What lookups in service-TD collateral find, in terms of the collateral itself.
use vstd::prelude::*;

use crate::calendar::iso8601;
use crate::comid::{
    CborView, ClassIdView, ComidView, EndorsementSeriesView, EnvironmentView, InstanceIdView,
    MeasurementKey, MeasurementView, ReferenceValuesView, Svn,
};
use crate::hex::hex_text;
use crate::servtd_collateral::{
    hash_svn, level_of_svn, mapped_svn, SvnMapping, TcbLevel, TdIdentity, TdTcbMapping,
};
use crate::servtd_corim::{
    all_series_svn, comid_measurement, comid_svn, comids_level, comids_measurement, comids_svn,
    epoch_seconds, in_environment, measured_level, measurement_of_svn, referenced_measurement,
    series_svn, ServtdCorim, SERVTD_HASH_CLASS_UUID, SERVTD_HASH_INSTANCE_BYTES,
    SVN_TCB_INSTANCE_BYTES,
};
use crate::servtd_laws::measurement_stands_for_the_hash;
use crate::servtd_provider::{IdentityView, LegacyServtdProvider, LookupView, ServtdProvider};
use crate::text_laws::{
    equal_but_for_case, hexadecimal_is_read_digit_by_digit, measurements_compare_letter_by_letter,
    stands_for,
};

verus! {

/// Whether a mapping is the first of a measurement: it has it, the case of letters aside, and
/// no mapping before it has.
pub open spec fn is_first_mapping(mappings: Seq<SvnMapping>, target: Seq<char>, i: int) -> bool {
    &&& 0 <= i < mappings.len()
    &&& equal_but_for_case(mappings[i].td_measurements.tdinfo_hash@, target)
    &&& forall|j: int|
        0 <= j < i ==> !equal_but_for_case(
            (#[trigger] mappings[j]).td_measurements.tdinfo_hash@,
            target,
        )
}

proof fn lemma_mapped(mappings: Seq<SvnMapping>, target: Seq<char>, i: int)
    requires
        0 <= i <= mappings.len(),
        forall|j: int|
            0 <= j < i ==> !equal_but_for_case(
                (#[trigger] mappings[j]).td_measurements.tdinfo_hash@,
                target,
            ),
    ensures
        match mapped_svn(mappings, target, i) {
            Some(svn) => exists|k: int| #[trigger]
                is_first_mapping(mappings, target, k) && mappings[k].isvsvn == svn,
            None => forall|j: int|
                0 <= j < mappings.len() ==> !equal_but_for_case(
                    (#[trigger] mappings[j]).td_measurements.tdinfo_hash@,
                    target,
                ),
        },
    decreases mappings.len() - i,
{
    if i < mappings.len() {
        measurements_compare_letter_by_letter(
            mappings[i].td_measurements.tdinfo_hash@,
            target,
        );
        if equal_but_for_case(mappings[i].td_measurements.tdinfo_hash@, target) {
            assert(is_first_mapping(mappings, target, i));
        } else {
            lemma_mapped(mappings, target, i + 1);
        }
    }
}

/// The security version of a measurement is that of its first mapping, and it has none
/// exactly where no mapping has it.
pub proof fn measurement_has_the_svn_of_its_first_mapping(
    mappings: Seq<SvnMapping>,
    target: Seq<char>,
)
    ensures
        match mapped_svn(mappings, target, 0) {
            Some(svn) => exists|k: int| #[trigger]
                is_first_mapping(mappings, target, k) && mappings[k].isvsvn == svn,
            None => forall|j: int|
                0 <= j < mappings.len() ==> !equal_but_for_case(
                    (#[trigger] mappings[j]).td_measurements.tdinfo_hash@,
                    target,
                ),
        },
{
    lemma_mapped(mappings, target, 0);
}

/// Whether a mapping is the first of a `tdinfo_hash`: its text stands for the bytes in
/// hexadecimal, and no text before it does.
pub open spec fn is_first_of_hash(mappings: Seq<SvnMapping>, hash: Seq<u8>, i: int) -> bool {
    &&& 0 <= i < mappings.len()
    &&& stands_for(mappings[i].td_measurements.tdinfo_hash@, hash)
    &&& forall|j: int|
        0 <= j < i ==> !stands_for((#[trigger] mappings[j]).td_measurements.tdinfo_hash@, hash)
}

/// The security version of a `tdinfo_hash` is that of the first mapping whose text stands
/// for its bytes; it has none exactly where it is not 48 bytes long or no text does.
pub proof fn hash_has_the_svn_of_its_first_mapping(mappings: Seq<SvnMapping>, hash: Seq<u8>)
    ensures
        match hash_svn(mappings, hash) {
            Some(svn) => hash.len() == 48 && exists|k: int| #[trigger]
                is_first_of_hash(mappings, hash, k) && mappings[k].isvsvn == svn,
            None => hash.len() != 48 || forall|j: int|
                0 <= j < mappings.len() ==> !stands_for(
                    (#[trigger] mappings[j]).td_measurements.tdinfo_hash@,
                    hash,
                ),
        },
{
    let target = hex_text(hash);
    assert forall|j: int| 0 <= j < mappings.len() implies equal_but_for_case(
        (#[trigger] mappings[j]).td_measurements.tdinfo_hash@,
        target,
    ) == stands_for(mappings[j].td_measurements.tdinfo_hash@, hash) by {
        let text = mappings[j].td_measurements.tdinfo_hash@;
        measurements_compare_letter_by_letter(text, target);
        measurement_stands_for_the_hash(text, hash);
        hexadecimal_is_read_digit_by_digit(text, hash);
    }
    lemma_mapped(mappings, target, 0);
    if hash_svn(mappings, hash) is Some {
        let svn = hash_svn(mappings, hash)->0;
        let k = choose|k: int| #[trigger]
            is_first_mapping(mappings, target, k) && mappings[k].isvsvn == svn;
        assert(is_first_of_hash(mappings, hash, k));
    }
}

/// Whether a TCB level is the first of a security version in a list.
pub open spec fn is_first_level(levels: Seq<TcbLevel>, svn: u16, i: int) -> bool {
    &&& 0 <= i < levels.len()
    &&& levels[i].isvsvn == svn
    &&& forall|j: int| 0 <= j < i ==> (#[trigger] levels[j]).isvsvn != svn
}

proof fn lemma_level(levels: Seq<TcbLevel>, svn: u16, i: int)
    requires
        0 <= i <= levels.len(),
        forall|j: int| 0 <= j < i ==> (#[trigger] levels[j]).isvsvn != svn,
    ensures
        match level_of_svn(levels, svn, i) {
            Some(level) => exists|k: int| #[trigger]
                is_first_level(levels, svn, k) && levels[k] == level,
            None => forall|j: int| 0 <= j < levels.len() ==> (#[trigger] levels[j]).isvsvn != svn,
        },
    decreases levels.len() - i,
{
    if i < levels.len() {
        if levels[i].isvsvn == svn {
            assert(is_first_level(levels, svn, i));
        } else {
            lemma_level(levels, svn, i + 1);
        }
    }
}

/// The TCB level of a security version is of exactly this security version, and the first in
/// the list that is; there is none exactly where no level of the list is of it.
pub proof fn level_is_the_first_of_exactly_its_svn(levels: Seq<TcbLevel>, svn: u16)
    ensures
        match level_of_svn(levels, svn, 0) {
            Some(level) => level.isvsvn == svn && exists|k: int| #[trigger]
                is_first_level(levels, svn, k) && levels[k] == level,
            None => forall|j: int| 0 <= j < levels.len() ==> (#[trigger] levels[j]).isvsvn != svn,
        },
{
    lemma_level(levels, svn, 0);
}

/// A lookup in JSON collateral finds the first mapping of the measurements, and the first
/// level of exactly the security version of this mapping; it finds nothing exactly where the
/// measurements are not given, no mapping has them, or no level is of that security version.
pub proof fn legacy_lookup_follows_mapping_and_level(
    tcb_mapping: TdTcbMapping,
    identity: TdIdentity,
    id: IdentityView,
)
    ensures
        ({
            let mappings = tcb_mapping.svn_mappings@;
            let levels = identity.tcb_levels@;
            let provider = LegacyServtdProvider { tcb_mapping: &tcb_mapping, identity: &identity };
            match provider.resolved(id) {
                Some(found) => id.measurements is Some && exists|i: int, k: int|
                    #![trigger is_first_mapping(mappings, id.measurements->0, i), levels[k]]
                    {
                        &&& is_first_mapping(mappings, id.measurements->0, i)
                        &&& found.isvsvn == mappings[i].isvsvn
                        &&& is_first_level(levels, found.isvsvn, k)
                        &&& found.tcb_date == levels[k].tcb_date@
                        &&& found.tcb_status == levels[k].tcb_status@
                    },
                None => id.measurements is None || forall|i: int, k: int|
                    #![trigger is_first_mapping(mappings, id.measurements->0, i), levels[k]]
                    is_first_mapping(mappings, id.measurements->0, i) && 0 <= k < levels.len()
                        ==> levels[k].isvsvn != mappings[i].isvsvn,
            }
        }),
{
    let mappings = tcb_mapping.svn_mappings@;
    let levels = identity.tcb_levels@;
    let provider = LegacyServtdProvider { tcb_mapping: &tcb_mapping, identity: &identity };
    if id.measurements is Some {
        let target = id.measurements->0;
        lemma_mapped(mappings, target, 0);
        if mapped_svn(mappings, target, 0) is Some {
            let svn = mapped_svn(mappings, target, 0)->0;
            lemma_level(levels, svn, 0);
            let i = choose|k: int| #[trigger]
                is_first_mapping(mappings, target, k) && mappings[k].isvsvn == svn;
            if level_of_svn(levels, svn, 0) is Some {
                let level = level_of_svn(levels, svn, 0)->0;
                let k = choose|k: int| #[trigger]
                    is_first_level(levels, svn, k) && levels[k] == level;
                assert(is_first_mapping(mappings, target, i) && levels[k] == level);
            } else {
                assert forall|j: int| #[trigger] is_first_mapping(mappings, target, j) implies j
                    == i by {
                    if j < i {
                        assert(!equal_but_for_case(
                            mappings[j].td_measurements.tdinfo_hash@,
                            target,
                        ));
                    }
                    if i < j {
                        assert(!equal_but_for_case(
                            mappings[i].td_measurements.tdinfo_hash@,
                            target,
                        ));
                    }
                }
            }
        }
    }
}

/// The environment of the component class, with the given instance.
pub open spec fn is_environment_of(environment: EnvironmentView, instance: Seq<u8>) -> bool {
    &&& environment.class_id == Some(
        ClassIdView::Uuid(
            seq![
                0x7fu8, 0xb0, 0x0e, 0xe4, 0xa7, 0xff, 0x11, 0xed, 0x9e, 0x2f, 0x00, 0x15, 0x5d,
                0x09, 0xde, 0x56,
            ],
        ),
    )
    &&& environment.instance == Some(InstanceIdView::Bytes(instance))
}

/// The ASCII text `servtd-hash`.
pub open spec fn servtd_hash_text() -> Seq<u8> {
    seq![0x73u8, 0x65, 0x72, 0x76, 0x74, 0x64, 0x2d, 0x68, 0x61, 0x73, 0x68]
}

/// The ASCII text `svn-tcb`.
pub open spec fn svn_tcb_text() -> Seq<u8> {
    seq![0x73u8, 0x76, 0x6e, 0x2d, 0x74, 0x63, 0x62]
}

/// Whether an endorsement series gives a hash a security version: it is in the `servtd-hash`
/// environment, the first digest that its first record selects on is the hash, and the first
/// measurement that this record adds has exactly this security version, of sixteen bits.
pub open spec fn endorses(series: EndorsementSeriesView, hash: Seq<u8>, svn: int) -> bool {
    &&& is_environment_of(series.environment, servtd_hash_text())
    &&& series.series.len() > 0
    &&& series.series[0].selection.len() > 0
    &&& series.series[0].selection[0].digests is Some
    &&& series.series[0].selection[0].digests->0.len() > 0
    &&& series.series[0].selection[0].digests->0[0] == hash
    &&& series.series[0].addition.len() > 0
    &&& series.series[0].addition[0].svn == Some(Svn::Exact(svn as u64))
    &&& 0 <= svn <= 65535
}

proof fn lemma_constants(environment: EnvironmentView)
    ensures
        in_environment(
            environment,
            SERVTD_HASH_INSTANCE_BYTES@,
        ) == is_environment_of(environment, servtd_hash_text()),
        in_environment(
            environment,
            SVN_TCB_INSTANCE_BYTES@,
        ) == is_environment_of(environment, svn_tcb_text()),
{
    assert(SERVTD_HASH_CLASS_UUID@ =~= seq![
        0x7fu8, 0xb0, 0x0e, 0xe4, 0xa7, 0xff, 0x11, 0xed, 0x9e, 0x2f, 0x00, 0x15, 0x5d, 0x09, 0xde,
        0x56,
    ]);
    assert(SERVTD_HASH_INSTANCE_BYTES@ =~= servtd_hash_text());
    assert(SVN_TCB_INSTANCE_BYTES@ =~= svn_tcb_text());
}

/// The security version that an endorsement series gives a hash is exactly the one that it
/// endorses, and it gives none where it endorses none.
pub proof fn series_gives_what_it_endorses(
    series: EndorsementSeriesView,
    hash: Seq<u8>,
    svn: u16,
)
    ensures
        series_svn(series, hash) == Some(svn) <==> endorses(series, hash, svn as int),
{
    lemma_constants(series.environment);
}

/// The endorsement series of a CoMID tag.
pub open spec fn all_series(comid: ComidView) -> Seq<EndorsementSeriesView> {
    match comid.conditional_endorsement_series {
        Some(all) => all,
        None => Seq::empty(),
    }
}

/// Whether the series at a place, in the list of a tag, is the first to endorse a hash, and
/// with which security version: no series before it in the same tag does, nor any in a tag
/// before.
pub open spec fn first_endorses(
    comids: Seq<ComidView>,
    hash: Seq<u8>,
    c: int,
    j: int,
    svn: u16,
) -> bool {
    &&& 0 <= c < comids.len()
    &&& 0 <= j < all_series(comids[c]).len()
    &&& endorses(all_series(comids[c])[j], hash, svn as int)
    &&& forall|i: int, n: int|
        0 <= i < j ==> !#[trigger] endorses(all_series(comids[c])[i], hash, n)
    &&& forall|d: int, i: int, n: int|
        0 <= d < c && 0 <= i < all_series(comids[d]).len() ==> !#[trigger] endorses(
            all_series(comids[d])[i],
            hash,
            n,
        )
}

/// Whether nothing in a list of series endorses a hash, from a position on.
spec fn none_endorses(all: Seq<EndorsementSeriesView>, hash: Seq<u8>) -> bool {
    forall|i: int, n: int| 0 <= i < all.len() ==> !#[trigger] endorses(all[i], hash, n)
}

proof fn lemma_all_series(all: Seq<EndorsementSeriesView>, hash: Seq<u8>, i: int) -> (k: int)
    requires
        0 <= i <= all.len(),
        forall|j: int, n: int| 0 <= j < i ==> !#[trigger] endorses(all[j], hash, n),
    ensures
        match all_series_svn(all, hash, i) {
            Some(svn) => {
                &&& i <= k < all.len()
                &&& endorses(all[k], hash, svn as int)
                &&& forall|j: int, n: int| 0 <= j < k ==> !#[trigger] endorses(all[j], hash, n)
            },
            None => none_endorses(all, hash),
        },
    decreases all.len() - i,
{
    if i < all.len() {
        if series_svn(all[i], hash) is Some {
            series_gives_what_it_endorses(all[i], hash, series_svn(all[i], hash)->0);
            i
        } else {
            assert forall|n: int| !#[trigger] endorses(all[i], hash, n) by {
                if endorses(all[i], hash, n) {
                    series_gives_what_it_endorses(all[i], hash, n as u16);
                }
            }
            lemma_all_series(all, hash, i + 1)
        }
    } else {
        i
    }
}

proof fn lemma_comids_svn(comids: Seq<ComidView>, hash: Seq<u8>, i: int)
    requires
        0 <= i <= comids.len(),
        forall|d: int| 0 <= d < i ==> none_endorses(#[trigger] all_series(comids[d]), hash),
    ensures
        match comids_svn(comids, hash, i) {
            Some(svn) => exists|c: int, j: int| first_endorses(comids, hash, c, j, svn),
            None => forall|d: int|
                0 <= d < comids.len() ==> none_endorses(#[trigger] all_series(comids[d]), hash),
        },
    decreases comids.len() - i,
{
    if i < comids.len() {
        let all = all_series(comids[i]);
        let k = lemma_all_series(all, hash, 0);
        assert(comid_svn(comids[i], hash) == all_series_svn(all, hash, 0));
        if comid_svn(comids[i], hash) is Some {
            let svn = comid_svn(comids[i], hash)->0;
            assert forall|d: int, j: int, n: int|
                0 <= d < i && 0 <= j < all_series(comids[d]).len() implies !#[trigger] endorses(
                all_series(comids[d])[j],
                hash,
                n,
            ) by {
                assert(none_endorses(all_series(comids[d]), hash));
                assert(!endorses(all_series(comids[d])[j], hash, n));
            }
            assert forall|j: int, n: int| 0 <= j < k implies !#[trigger] endorses(
                all_series(comids[i])[j],
                hash,
                n,
            ) by {
                assert(!endorses(all[j], hash, n));
            }
            assert(first_endorses(comids, hash, i, k, svn));
        } else {
            lemma_comids_svn(comids, hash, i + 1);
        }
    }
}

/// The security version of a hash is the one that the first endorsement series to endorse
/// the hash gives, in the order of the tags and of the series in them; it has none exactly
/// where no series endorses it.
pub proof fn hash_has_the_svn_of_its_first_endorsement(comids: Seq<ComidView>, hash: Seq<u8>)
    ensures
        match comids_svn(comids, hash, 0) {
            Some(svn) => exists|c: int, j: int| first_endorses(comids, hash, c, j, svn),
            None => forall|c: int, j: int, n: int|
                0 <= c < comids.len() && 0 <= j < all_series(comids[c]).len()
                    ==> !#[trigger] endorses(
                    all_series(comids[c])[j],
                    hash,
                    n,
                ),
        },
{
    lemma_comids_svn(comids, hash, 0);
    if comids_svn(comids, hash, 0) is None {
        assert forall|c: int, j: int, n: int|
            0 <= c < comids.len() && 0 <= j < all_series(
                comids[c],
            ).len() implies !#[trigger] endorses(
            all_series(comids[c])[j],
            hash,
            n,
        ) by {
            assert(none_endorses(all_series(comids[c]), hash));
            assert(!endorses(all_series(comids[c])[j], hash, n));
        }
    }
}

/// The reference values of a CoMID tag.
pub open spec fn all_references(comid: ComidView) -> Seq<ReferenceValuesView> {
    match comid.reference_triples {
        Some(all) => all,
        None => Seq::empty(),
    }
}

/// The measurement at a place: in a tag, in a list of reference values of it, in these.
pub open spec fn measurement_at(comids: Seq<ComidView>, c: int, j: int, k: int) -> MeasurementView {
    all_references(comids[c])[j].measurements[k]
}

/// Whether the measurement at a place is that of a security version: its reference values
/// are in the `svn-tcb` environment, and its key is exactly this number.
pub open spec fn is_level_at(comids: Seq<ComidView>, svn: u16, c: int, j: int, k: int) -> bool {
    &&& 0 <= c < comids.len()
    &&& 0 <= j < all_references(comids[c]).len()
    &&& 0 <= k < all_references(comids[c])[j].measurements.len()
    &&& is_environment_of(all_references(comids[c])[j].environment, svn_tcb_text())
    &&& measurement_at(comids, c, j, k).mkey == Some(MeasurementKey::Uint(svn as u64))
}

/// Whether the measurement at a place is the first of a security version.
pub open spec fn is_first_level_at(
    comids: Seq<ComidView>,
    svn: u16,
    c: int,
    j: int,
    k: int,
) -> bool {
    &&& is_level_at(comids, svn, c, j, k)
    &&& forall|d: int, i: int, l: int|
        d < c || d == c && (i < j || i == j && l < k) ==> !#[trigger] is_level_at(
            comids,
            svn,
            d,
            i,
            l,
        )
}

proof fn lemma_in_list(list: Seq<MeasurementView>, svn: u16, i: int) -> (k: int)
    requires
        0 <= i <= list.len(),
        forall|l: int|
            0 <= l < i ==> (#[trigger] list[l]).mkey != Some(MeasurementKey::Uint(svn as u64)),
    ensures
        match measurement_of_svn(list, svn, i) {
            Some(m) => {
                &&& i <= k < list.len()
                &&& list[k] == m
                &&& m.mkey == Some(MeasurementKey::Uint(svn as u64))
                &&& forall|l: int|
                    0 <= l < k ==> (#[trigger] list[l]).mkey != Some(
                        MeasurementKey::Uint(svn as u64),
                    )
            },
            None => forall|l: int|
                0 <= l < list.len() ==> (#[trigger] list[l]).mkey != Some(
                    MeasurementKey::Uint(svn as u64),
                ),
        },
    decreases list.len() - i,
{
    if i < list.len() {
        if list[i].mkey == Some(MeasurementKey::Uint(svn as u64)) {
            i
        } else {
            lemma_in_list(list, svn, i + 1)
        }
    } else {
        i
    }
}

/// Whether a list of reference values holds a measurement of a security version at a place.
spec fn is_level_in(all: Seq<ReferenceValuesView>, svn: u16, j: int, k: int) -> bool {
    &&& 0 <= j < all.len()
    &&& 0 <= k < all[j].measurements.len()
    &&& is_environment_of(all[j].environment, svn_tcb_text())
    &&& all[j].measurements[k].mkey == Some(MeasurementKey::Uint(svn as u64))
}

proof fn lemma_in_references(all: Seq<ReferenceValuesView>, svn: u16, i: int) -> (r: (int, int))
    requires
        0 <= i <= all.len(),
        forall|j: int, k: int| j < i ==> !#[trigger] is_level_in(all, svn, j, k),
    ensures
        match referenced_measurement(all, svn, i) {
            Some(m) => {
                &&& is_level_in(all, svn, r.0, r.1)
                &&& all[r.0].measurements[r.1] == m
                &&& forall|j: int, k: int|
                    j < r.0 || j == r.0 && k < r.1 ==> !#[trigger] is_level_in(all, svn, j, k)
            },
            None => forall|j: int, k: int| !#[trigger] is_level_in(all, svn, j, k),
        },
    decreases all.len() - i,
{
    if i < all.len() {
        lemma_constants(all[i].environment);
        let list = all[i].measurements;
        let k = lemma_in_list(list, svn, 0);
        if is_environment_of(all[i].environment, svn_tcb_text()) && measurement_of_svn(
            list,
            svn,
            0,
        ) is Some {
            (i, k)
        } else {
            assert forall|j: int, l: int| j < i + 1 implies !#[trigger] is_level_in(
                all,
                svn,
                j,
                l,
            ) by {}
            lemma_in_references(all, svn, i + 1)
        }
    } else {
        (i, 0)
    }
}

proof fn lemma_in_comids(comids: Seq<ComidView>, svn: u16, i: int)
    requires
        0 <= i <= comids.len(),
        forall|c: int, j: int, k: int| c < i ==> !#[trigger] is_level_at(comids, svn, c, j, k),
    ensures
        match comids_measurement(comids, svn, i) {
            Some(m) => exists|c: int, j: int, k: int| #[trigger]
                is_first_level_at(comids, svn, c, j, k) && m == measurement_at(comids, c, j, k),
            None => forall|c: int, j: int, k: int| !#[trigger] is_level_at(comids, svn, c, j, k),
        },
    decreases comids.len() - i,
{
    if i < comids.len() {
        let all = all_references(comids[i]);
        let r = lemma_in_references(all, svn, 0);
        assert(comid_measurement(comids[i], svn) == referenced_measurement(all, svn, 0));
        assert forall|j: int, k: int|
            #![trigger is_level_at(comids, svn, i, j, k)]
            #![trigger is_level_in(all, svn, j, k)]
            is_level_at(comids, svn, i, j, k) == is_level_in(all, svn, j, k) by {}
        if comid_measurement(comids[i], svn) is Some {
            assert(is_level_at(comids, svn, i, r.0, r.1));
            assert(is_first_level_at(comids, svn, i, r.0, r.1));
        } else {
            lemma_in_comids(comids, svn, i + 1);
        }
    }
}

/// The measurement that is found for a security version is in the `svn-tcb` environment, its
/// key is exactly this number, and it is the first such one, in the order of the tags, the
/// reference values in them, and the measurements in these; none is found exactly where none
/// is listed.
pub proof fn level_is_the_first_keyed_by_exactly_its_svn(comids: Seq<ComidView>, svn: u16)
    ensures
        match comids_measurement(comids, svn, 0) {
            Some(m) => m.mkey == Some(MeasurementKey::Uint(svn as u64)) && exists|
                c: int,
                j: int,
                k: int,
            | #[trigger]
                is_first_level_at(comids, svn, c, j, k) && m == measurement_at(comids, c, j, k),
            None => forall|c: int, j: int, k: int| !#[trigger] is_level_at(comids, svn, c, j, k),
        },
{
    lemma_in_comids(comids, svn, 0);
}

/// Whether a CBOR value stands for a point in time: an integer of 64 bits with a sign, bare
/// or under tag 1.
pub open spec fn is_time(value: CborView, epoch: int) -> bool {
    &&& -0x8000_0000_0000_0000 <= epoch <= 0x7fff_ffff_ffff_ffff
    &&& value == CborView::Integer(epoch) || value == CborView::Tag(
        1,
        Box::new(CborView::Integer(epoch)),
    )
}

/// A point in time is read exactly from a value that stands for it.
pub proof fn time_is_read_bare_or_tagged(value: CborView, epoch: i64)
    ensures
        epoch_seconds(value) == Some(epoch) <==> is_time(value, epoch as int),
{
}

/// Whether a measurement holds a TCB level: under the key -72 a point in time with the date as
/// its timestamp, and under the key -88 the status as a text.
pub open spec fn holds_level(
    m: MeasurementView,
    epoch: int,
    date: Seq<char>,
    status: Seq<char>,
) -> bool {
    &&& m.extra_entries.dom().contains(-72)
    &&& is_time(m.extra_entries[-72], epoch)
    &&& date == iso8601(epoch)
    &&& m.extra_entries.dom().contains(-88)
    &&& m.extra_entries[-88] == CborView::Text(status)
}

/// The TCB level that is read from a measurement is the one that it holds, and none is read
/// exactly where it holds none.
pub proof fn level_is_read_from_its_entries(m: MeasurementView)
    ensures
        match measured_level(m) {
            Some(level) => exists|epoch: int| holds_level(m, epoch, level.0, level.1),
            None => forall|epoch: int, date: Seq<char>, status: Seq<char>|
                !holds_level(m, epoch, date, status),
        },
{
    if measured_level(m) is Some {
        let level = measured_level(m)->0;
        let epoch = epoch_seconds(m.extra_entries[-72])->0;
        time_is_read_bare_or_tagged(m.extra_entries[-72], epoch);
        assert(holds_level(m, epoch as int, level.0, level.1));
    } else {
        assert forall|epoch: int, date: Seq<char>, status: Seq<char>| !holds_level(
            m,
            epoch,
            date,
            status,
        ) by {
            if holds_level(m, epoch, date, status) {
                time_is_read_bare_or_tagged(m.extra_entries[-72], epoch as i64);
            }
        }
    }
}

/// Whether the TD identity gives a security version a TCB level: its first measurement holds
/// it.
pub open spec fn gives_level(
    comids: Seq<ComidView>,
    svn: u16,
    date: Seq<char>,
    status: Seq<char>,
) -> bool {
    exists|c: int, j: int, k: int, epoch: int|
        #![trigger is_first_level_at(comids, svn, c, j, k), iso8601(epoch)]
        is_first_level_at(comids, svn, c, j, k) && holds_level(
            measurement_at(comids, c, j, k),
            epoch,
            date,
            status,
        )
}

/// The TCB level of a security version is the one that its first measurement holds, and it
/// has none exactly where there is no such measurement or this holds none.
pub proof fn svn_has_the_level_of_its_first_measurement(
    comids: Seq<ComidView>,
    svn: u16,
    date: Seq<char>,
    status: Seq<char>,
)
    ensures
        comids_level(comids, svn) == Some((date, status)) <==> gives_level(
            comids,
            svn,
            date,
            status,
        ),
{
    lemma_in_comids(comids, svn, 0);
    if comids_measurement(comids, svn, 0) is Some {
        let m = comids_measurement(comids, svn, 0)->0;
        let (c, j, k) = choose|c: int, j: int, k: int| #[trigger]
            is_first_level_at(comids, svn, c, j, k) && m == measurement_at(comids, c, j, k);
        level_is_read_from_its_entries(m);
        if comids_level(comids, svn) == Some((date, status)) {
            let epoch = choose|epoch: int| holds_level(m, epoch, date, status);
            assert(is_first_level_at(comids, svn, c, j, k) && iso8601(epoch) == date);
        }
        if gives_level(comids, svn, date, status) {
            let (d, i, l, epoch) = choose|d: int, i: int, l: int, epoch: int|
                #![trigger is_first_level_at(comids, svn, d, i, l), iso8601(epoch)]
                is_first_level_at(comids, svn, d, i, l) && holds_level(
                    measurement_at(comids, d, i, l),
                    epoch,
                    date,
                    status,
                );
            assert(is_level_at(comids, svn, c, j, k) && is_level_at(comids, svn, d, i, l));
            assert(d == c && i == j && l == k);
            time_is_read_bare_or_tagged(m.extra_entries[-72], epoch as i64);
            assert(holds_level(m, epoch, date, status));
        }
    } else if gives_level(comids, svn, date, status) {
        let (d, i, l, epoch) = choose|d: int, i: int, l: int, epoch: int|
            #![trigger is_first_level_at(comids, svn, d, i, l), iso8601(epoch)]
            is_first_level_at(comids, svn, d, i, l) && holds_level(
                measurement_at(comids, d, i, l),
                epoch,
                date,
                status,
            );
        assert(is_level_at(comids, svn, d, i, l));
    }
}

/// A lookup in CoRIM collateral finds what the first endorsement of the hash and the first
/// measurement of exactly the endorsed security version say, and nothing else.
pub proof fn corim_lookup_follows_endorsement_and_level(
    provider: ServtdCorim,
    id: IdentityView,
    found: LookupView,
)
    ensures
        provider.resolved(id) == Some(found) <==> {
            &&& id.servtd_info_hash is Some
            &&& exists|c: int, j: int|
                first_endorses(
                    provider@.tcb_mapping,
                    id.servtd_info_hash->0,
                    c,
                    j,
                    found.isvsvn,
                )
            &&& gives_level(
                provider@.td_identity,
                found.isvsvn,
                found.tcb_date,
                found.tcb_status,
            )
        },
{
    let mapping = provider@.tcb_mapping;
    let identity = provider@.td_identity;
    if id.servtd_info_hash is Some {
        let hash = id.servtd_info_hash->0;
        lemma_comids_svn(mapping, hash, 0);
        lemma_one_endorsement(mapping, hash, found.isvsvn);
        svn_has_the_level_of_its_first_measurement(
            identity,
            found.isvsvn,
            found.tcb_date,
            found.tcb_status,
        );
    }
}

/// The first endorsement of a hash is one.
proof fn lemma_one_endorsement(comids: Seq<ComidView>, hash: Seq<u8>, svn: u16)
    ensures
        comids_svn(comids, hash, 0) == Some(svn) <==> exists|c: int, j: int|
            first_endorses(comids, hash, c, j, svn),
{
    lemma_comids_svn(comids, hash, 0);
    if exists|c: int, j: int| first_endorses(comids, hash, c, j, svn) {
        let (c, j) = choose|c: int, j: int| first_endorses(comids, hash, c, j, svn);
        assert(endorses(all_series(comids[c])[j], hash, svn as int));
        if comids_svn(comids, hash, 0) is None {
            assert(none_endorses(all_series(comids[c]), hash));
        } else {
            let other = comids_svn(comids, hash, 0)->0;
            let (d, i) = choose|d: int, i: int| first_endorses(comids, hash, d, i, other);
            assert(endorses(all_series(comids[d])[i], hash, other as int));
            assert(c == d);
            assert(i == j);
        }
    }
}

} // verus!
