//! What lookups in service-TD collateral promise.
use vstd::prelude::*;

use crate::comid::{
    ComidView, EndorsementSeriesView, EnvironmentView, MeasurementView, ReferenceValuesView,
};
use crate::digest::SHA384_DIGEST_SIZE;
use crate::hex::{hex_bytes, hex_digit_value, hex_text, is_hex, upper_hex_digit};
use crate::servtd_collateral::{
    ascii_upper, hash_svn, mapped_svn, same_measurement, upper_text, SvnMapping,
};
use crate::servtd_corim::{
    all_series_svn, comid_svn, comids_level, comids_measurement, comids_svn, in_environment,
    is_of_svn, measurement_of_svn, referenced_measurement, selects, series_svn,
    ServtdCorim, SERVTD_HASH_INSTANCE_BYTES, SVN_TCB_INSTANCE_BYTES,
};
use crate::servtd_provider::{IdentityView, LegacyServtdProvider, ServtdProvider};

verus! {

/// Whether two characters are the same but for the case of an ASCII letter.
pub open spec fn same_letter(c: char, d: char) -> bool {
    ||| c == d
    ||| 'a' <= c <= 'z' && d as u32 == c as u32 - 32
    ||| 'a' <= d <= 'z' && c as u32 == d as u32 - 32
}

/// Comparing measurements is an equivalence: it holds exactly where two texts are the same
/// character by character but for the case of ASCII letters, of a text and itself, in both
/// directions, and across a text in between.
pub proof fn measurements_are_compared_up_to_case(a: Seq<char>, b: Seq<char>, c: Seq<char>)
    ensures
        same_measurement(a, b) <==> a.len() == b.len() && forall|i: int|
            0 <= i < a.len() ==> same_letter(#[trigger] a[i], b[i]),
        same_measurement(a, a),
        same_measurement(a, b) == same_measurement(b, a),
        same_measurement(a, b) && same_measurement(b, c) ==> same_measurement(a, c),
        same_measurement(upper_text(a), b) == same_measurement(a, b),
{
    if same_measurement(a, b) {
        assert(a.len() == upper_text(a).len() && b.len() == upper_text(b).len());
        assert forall|i: int| 0 <= i < a.len() implies same_letter(#[trigger] a[i], b[i]) by {
            assert(upper_text(a)[i] == upper_text(b)[i]);
        }
    }
    if a.len() == b.len() && forall|i: int|
        0 <= i < a.len() ==> same_letter(#[trigger] a[i], b[i]) {
        assert forall|i: int| 0 <= i < a.len() implies upper_text(a)[i] == upper_text(b)[i] by {
            assert(same_letter(a[i], b[i]));
        }
        assert(upper_text(a) =~= upper_text(b));
    }
    assert(upper_text(upper_text(a)) =~= upper_text(a));
}

/// An environment has one instance: none is both that of the TCB mapping and that of the
/// TD identity.
pub proof fn an_environment_has_one_instance(
    environment: EnvironmentView,
    a: Seq<u8>,
    b: Seq<u8>,
)
    ensures
        in_environment(environment, a) && in_environment(environment, b) ==> a == b,
        !(in_environment(environment, SERVTD_HASH_INSTANCE_BYTES@) && in_environment(
            environment,
            SVN_TCB_INSTANCE_BYTES@,
        )),
{
    assert(SERVTD_HASH_INSTANCE_BYTES@.len() != SVN_TCB_INSTANCE_BYTES@.len());
}

/// Measurements that differ in the case of their letters alone have the same security
/// version.
pub proof fn case_does_not_matter(
    mappings: Seq<SvnMapping>,
    a: Seq<char>,
    b: Seq<char>,
    i: int,
)
    requires
        same_measurement(a, b),
    ensures
        mapped_svn(mappings, a, i) == mapped_svn(mappings, b, i),
    decreases mappings.len() - i,
{
    if 0 <= i < mappings.len() {
        case_does_not_matter(mappings, a, b, i + 1);
    }
}

/// The first mapping of a measurement wins: mappings that are added behind count for
/// those measurements alone that had none.
pub proof fn first_mapping_wins(
    mappings: Seq<SvnMapping>,
    more: Seq<SvnMapping>,
    target: Seq<char>,
    i: int,
)
    requires
        0 <= i <= mappings.len(),
    ensures
        mapped_svn(mappings + more, target, i) == if mapped_svn(mappings, target, i) is Some {
            mapped_svn(mappings, target, i)
        } else {
            mapped_svn(more, target, 0)
        },
    decreases mappings.len() - i,
{
    if i < mappings.len() {
        first_mapping_wins(mappings, more, target, i + 1);
    } else {
        lemma_mapped_behind(mappings, more, target, 0);
    }
}

proof fn lemma_mapped_behind(
    mappings: Seq<SvnMapping>,
    more: Seq<SvnMapping>,
    target: Seq<char>,
    i: int,
)
    requires
        0 <= i <= more.len(),
    ensures
        mapped_svn(mappings + more, target, mappings.len() + i) == mapped_svn(more, target, i),
    decreases more.len() - i,
{
    if i < more.len() {
        lemma_mapped_behind(mappings, more, target, i + 1);
    }
}

/// A character is a digit of some value exactly where its upper case is the digit that is
/// written for the value.
proof fn lemma_digit_in_either_case(c: char, n: int)
    requires
        0 <= n < 16,
    ensures
        ascii_upper(c) == upper_hex_digit(n) <==> hex_digit_value(c) == Some(n),
        ascii_upper(upper_hex_digit(n)) == upper_hex_digit(n),
{
}

/// The value of the digit at a position of bytes in hexadecimal.
spec fn nibble(bytes: Seq<u8>, i: int) -> int {
    if i % 2 == 0 {
        bytes[i / 2] as int / 16
    } else {
        bytes[i / 2] as int % 16
    }
}

/// A text stands for bytes exactly where its digits have the values of theirs.
proof fn lemma_digits_stand_for_bytes(text: Seq<char>, bytes: Seq<u8>)
    ensures
        is_hex(text) && hex_bytes(text) == bytes <==> {
            &&& text.len() == 2 * bytes.len()
            &&& forall|i: int|
                0 <= i < text.len() ==> hex_digit_value(#[trigger] text[i]) == Some(
                    nibble(bytes, i),
                )
        },
{
    if is_hex(text) && hex_bytes(text) == bytes {
        assert(text.len() == 2 * bytes.len());
        assert forall|i: int| 0 <= i < text.len() implies hex_digit_value(#[trigger] text[i])
            == Some(nibble(bytes, i)) by {
            let k = i / 2;
            let high = hex_digit_value(text[2 * k])->0;
            let low = hex_digit_value(text[2 * k + 1])->0;
            assert(hex_digit_value(text[2 * k]) is Some);
            assert(hex_digit_value(text[2 * k + 1]) is Some);
            assert(0 <= high < 16 && 0 <= low < 16);
            assert(hex_bytes(text)[k] == (16 * high + low) as u8);
            assert(bytes[k] == 16 * high + low);
        }
    }
    if text.len() == 2 * bytes.len() && forall|i: int|
        0 <= i < text.len() ==> hex_digit_value(#[trigger] text[i]) == Some(nibble(bytes, i)) {
        assert forall|k: int| 0 <= k < bytes.len() implies hex_bytes(text)[k] == bytes[k] by {
            assert(hex_digit_value(text[2 * k]) == Some(nibble(bytes, 2 * k)));
            assert(hex_digit_value(text[2 * k + 1]) == Some(nibble(bytes, 2 * k + 1)));
            let b = bytes[k] as int;
            assert(b == 16 * (b / 16) + b % 16);
        }
        assert(hex_bytes(text) =~= bytes);
    }
}

/// A measurement is that of a `tdinfo_hash` exactly where it stands for its bytes in
/// hexadecimal, in either case.
pub proof fn measurement_stands_for_the_hash(measurement: Seq<char>, tdinfo_hash: Seq<u8>)
    ensures
        same_measurement(measurement, hex_text(tdinfo_hash)) <==> is_hex(measurement)
            && hex_bytes(measurement) == tdinfo_hash,
{
    let text = hex_text(tdinfo_hash);
    lemma_digits_stand_for_bytes(measurement, tdinfo_hash);
    assert forall|i: int| 0 <= i < text.len() implies upper_text(text)[i] == upper_hex_digit(
        nibble(tdinfo_hash, i),
    ) by {
        lemma_digit_in_either_case('0', nibble(tdinfo_hash, i));
    }
    if same_measurement(measurement, text) {
        assert(measurement.len() == upper_text(measurement).len());
        assert(text.len() == upper_text(text).len());
        assert forall|i: int| 0 <= i < measurement.len() implies hex_digit_value(
            #[trigger] measurement[i],
        ) == Some(nibble(tdinfo_hash, i)) by {
            assert(upper_text(measurement)[i] == upper_text(text)[i]);
            lemma_digit_in_either_case(measurement[i], nibble(tdinfo_hash, i));
        }
    }
    if is_hex(measurement) && hex_bytes(measurement) == tdinfo_hash {
        assert forall|i: int| 0 <= i < measurement.len() implies upper_text(measurement)[i]
            == upper_text(text)[i] by {
            assert(hex_digit_value(measurement[i]) == Some(nibble(tdinfo_hash, i)));
            lemma_digit_in_either_case(measurement[i], nibble(tdinfo_hash, i));
        }
        assert(upper_text(measurement) =~= upper_text(text));
    }
}

/// A `tdinfo_hash` that has a security version stands in a mapping, in hexadecimal of
/// either case, and the mapping gives that security version.
pub proof fn found_hash_is_mapped(mappings: Seq<SvnMapping>, tdinfo_hash: Seq<u8>)
    requires
        hash_svn(mappings, tdinfo_hash) is Some,
    ensures
        tdinfo_hash.len() == SHA384_DIGEST_SIZE,
        exists|i: int|
            0 <= i < mappings.len() && hash_svn(mappings, tdinfo_hash) == Some(
                (#[trigger] mappings[i]).isvsvn,
            ) && is_hex(mappings[i].td_measurements.tdinfo_hash@) && hex_bytes(
                mappings[i].td_measurements.tdinfo_hash@,
            ) == tdinfo_hash,
{
    let i = lemma_mapped_position(mappings, hex_text(tdinfo_hash), 0);
    measurement_stands_for_the_hash(mappings[i].td_measurements.tdinfo_hash@, tdinfo_hash);
}

proof fn lemma_mapped_position(mappings: Seq<SvnMapping>, target: Seq<char>, i: int) -> (k: int)
    requires
        0 <= i,
        mapped_svn(mappings, target, i) is Some,
    ensures
        i <= k < mappings.len(),
        mapped_svn(mappings, target, i) == Some(mappings[k].isvsvn),
        same_measurement(mappings[k].td_measurements.tdinfo_hash@, target),
    decreases mappings.len() - i,
{
    if same_measurement(mappings[i].td_measurements.tdinfo_hash@, target) {
        i
    } else {
        lemma_mapped_position(mappings, target, i + 1)
    }
}

/// Every mapped `tdinfo_hash` has a security version.
pub proof fn mapped_hash_is_found(mappings: Seq<SvnMapping>, tdinfo_hash: Seq<u8>, k: int)
    requires
        tdinfo_hash.len() == SHA384_DIGEST_SIZE,
        0 <= k < mappings.len(),
        is_hex(mappings[k].td_measurements.tdinfo_hash@),
        hex_bytes(mappings[k].td_measurements.tdinfo_hash@) == tdinfo_hash,
    ensures
        hash_svn(mappings, tdinfo_hash) is Some,
{
    measurement_stands_for_the_hash(mappings[k].td_measurements.tdinfo_hash@, tdinfo_hash);
    lemma_mapped_found(mappings, hex_text(tdinfo_hash), 0, k);
}

proof fn lemma_mapped_found(mappings: Seq<SvnMapping>, target: Seq<char>, i: int, k: int)
    requires
        0 <= i <= k < mappings.len(),
        same_measurement(mappings[k].td_measurements.tdinfo_hash@, target),
    ensures
        mapped_svn(mappings, target, i) is Some,
    decreases k - i,
{
    if i < k {
        lemma_mapped_found(mappings, target, i + 1, k);
    }
}

/// Whether the first record of some endorsement series selects on a hash.
pub open spec fn series_select(all: Seq<EndorsementSeriesView>, hash: Seq<u8>) -> bool {
    exists|j: int|
        0 <= j < all.len() && (#[trigger] all[j]).series.len() > 0 && selects(
            all[j].series[0],
            hash,
        )
}

/// Whether the first record of an endorsement series of a CoMID tag selects on a hash.
pub open spec fn is_selected(comid: ComidView, hash: Seq<u8>) -> bool {
    match comid.conditional_endorsement_series {
        Some(all) => series_select(all, hash),
        None => false,
    }
}

/// A hash that no series of the TCB mapping selects on with its first record has no
/// security version.
pub proof fn unselected_hash_is_unknown(comids: Seq<ComidView>, hash: Seq<u8>, i: int)
    requires
        forall|c: int| 0 <= c < comids.len() ==> !is_selected(#[trigger] comids[c], hash),
    ensures
        comids_svn(comids, hash, i) is None,
    decreases comids.len() - i,
{
    if 0 <= i < comids.len() {
        assert(!is_selected(comids[i], hash));
        if comids[i].conditional_endorsement_series is Some {
            let all = comids[i].conditional_endorsement_series->0;
            lemma_unselected_series(all, hash, 0);
        }
        unselected_hash_is_unknown(comids, hash, i + 1);
    }
}

proof fn lemma_unselected_series(all: Seq<EndorsementSeriesView>, hash: Seq<u8>, i: int)
    requires
        !series_select(all, hash),
    ensures
        all_series_svn(all, hash, i) is None,
    decreases all.len() - i,
{
    if 0 <= i < all.len() {
        lemma_unselected_series(all, hash, i + 1);
    }
}

/// A hash that some endorsement series of the TCB mapping gives a security version has
/// one.
pub proof fn endorsed_hash_is_known(comids: Seq<ComidView>, hash: Seq<u8>, c: int, j: int)
    requires
        0 <= c < comids.len(),
        comids[c].conditional_endorsement_series is Some,
        0 <= j < comids[c].conditional_endorsement_series->0.len(),
        series_svn(comids[c].conditional_endorsement_series->0[j], hash) is Some,
    ensures
        comids_svn(comids, hash, 0) is Some,
{
    lemma_series_known(comids[c].conditional_endorsement_series->0, hash, 0, j);
    lemma_comid_known(comids, hash, 0, c);
}

proof fn lemma_series_known(all: Seq<EndorsementSeriesView>, hash: Seq<u8>, i: int, j: int)
    requires
        0 <= i <= j < all.len(),
        series_svn(all[j], hash) is Some,
    ensures
        all_series_svn(all, hash, i) is Some,
    decreases j - i,
{
    if i < j {
        lemma_series_known(all, hash, i + 1, j);
    }
}

proof fn lemma_comid_known(comids: Seq<ComidView>, hash: Seq<u8>, i: int, c: int)
    requires
        0 <= i <= c < comids.len(),
        comid_svn(comids[c], hash) is Some,
    ensures
        comids_svn(comids, hash, i) is Some,
    decreases c - i,
{
    if i < c {
        lemma_comid_known(comids, hash, i + 1, c);
    }
}

/// The first CoMID tag that knows a hash wins: tags that are added behind count for those
/// hashes alone that had no security version.
pub proof fn first_comid_wins(
    comids: Seq<ComidView>,
    more: Seq<ComidView>,
    hash: Seq<u8>,
    i: int,
)
    requires
        0 <= i <= comids.len(),
    ensures
        comids_svn(comids + more, hash, i) == if comids_svn(comids, hash, i) is Some {
            comids_svn(comids, hash, i)
        } else {
            comids_svn(more, hash, 0)
        },
    decreases comids.len() - i,
{
    if i < comids.len() {
        first_comid_wins(comids, more, hash, i + 1);
    } else {
        lemma_comids_behind(comids, more, hash, 0);
    }
}

proof fn lemma_comids_behind(
    comids: Seq<ComidView>,
    more: Seq<ComidView>,
    hash: Seq<u8>,
    i: int,
)
    requires
        0 <= i <= more.len(),
    ensures
        comids_svn(comids + more, hash, comids.len() + i) == comids_svn(more, hash, i),
    decreases more.len() - i,
{
    if i < more.len() {
        lemma_comids_behind(comids, more, hash, i + 1);
    }
}

/// The first measurement of a security version wins: CoMID tags that are added behind
/// count for those security versions alone that had none.
pub proof fn first_level_wins(comids: Seq<ComidView>, more: Seq<ComidView>, svn: u16, i: int)
    requires
        0 <= i <= comids.len(),
    ensures
        comids_measurement(comids + more, svn, i) == if comids_measurement(
            comids,
            svn,
            i,
        ) is Some {
            comids_measurement(comids, svn, i)
        } else {
            comids_measurement(more, svn, 0)
        },
    decreases comids.len() - i,
{
    if i < comids.len() {
        first_level_wins(comids, more, svn, i + 1);
    } else {
        lemma_measurement_behind(comids, more, svn, 0);
    }
}

proof fn lemma_measurement_behind(
    comids: Seq<ComidView>,
    more: Seq<ComidView>,
    svn: u16,
    i: int,
)
    requires
        0 <= i <= more.len(),
    ensures
        comids_measurement(comids + more, svn, comids.len() + i) == comids_measurement(
            more,
            svn,
            i,
        ),
    decreases more.len() - i,
{
    if i < more.len() {
        lemma_measurement_behind(comids, more, svn, i + 1);
    }
}

/// Whether some reference values in the environment of the TD identity hold a measurement
/// of a security version.
pub open spec fn references_list(all: Seq<ReferenceValuesView>, svn: u16) -> bool {
    exists|j: int, k: int|
        0 <= j < all.len() && 0 <= k < all[j].measurements.len() && in_environment(
            all[j].environment,
            SVN_TCB_INSTANCE_BYTES@,
        ) && is_of_svn(#[trigger] all[j].measurements[k], svn)
}

/// Whether a CoMID tag holds a measurement of a security version in the environment of
/// the TD identity.
pub open spec fn is_level_listed(comid: ComidView, svn: u16) -> bool {
    match comid.reference_triples {
        Some(all) => references_list(all, svn),
        None => false,
    }
}

/// A security version that the TD identity does not list has no TCB level.
pub proof fn unlisted_svn_has_no_level(comids: Seq<ComidView>, svn: u16)
    requires
        forall|c: int| 0 <= c < comids.len() ==> !is_level_listed(#[trigger] comids[c], svn),
    ensures
        comids_level(comids, svn) is None,
{
    lemma_unlisted(comids, svn, 0);
}

proof fn lemma_unlisted(comids: Seq<ComidView>, svn: u16, i: int)
    requires
        forall|c: int| 0 <= c < comids.len() ==> !is_level_listed(#[trigger] comids[c], svn),
    ensures
        comids_measurement(comids, svn, i) is None,
    decreases comids.len() - i,
{
    if 0 <= i < comids.len() {
        assert(!is_level_listed(comids[i], svn));
        if comids[i].reference_triples is Some {
            lemma_unlisted_references(comids[i].reference_triples->0, svn, 0);
        }
        lemma_unlisted(comids, svn, i + 1);
    }
}

proof fn lemma_unlisted_references(all: Seq<ReferenceValuesView>, svn: u16, i: int)
    requires
        !references_list(all, svn),
    ensures
        referenced_measurement(all, svn, i) is None,
    decreases all.len() - i,
{
    if 0 <= i < all.len() {
        if in_environment(all[i].environment, SVN_TCB_INSTANCE_BYTES@) {
            assert forall|k: int| 0 <= k < all[i].measurements.len() implies !is_of_svn(
                #[trigger] all[i].measurements[k],
                svn,
            ) by {}
            lemma_unlisted_measurements(all[i].measurements, svn, 0);
        }
        lemma_unlisted_references(all, svn, i + 1);
    }
}

proof fn lemma_unlisted_measurements(measurements: Seq<MeasurementView>, svn: u16, i: int)
    requires
        forall|k: int|
            0 <= k < measurements.len() ==> !is_of_svn(#[trigger] measurements[k], svn),
    ensures
        measurement_of_svn(measurements, svn, i) is None,
    decreases measurements.len() - i,
{
    if 0 <= i < measurements.len() {
        lemma_unlisted_measurements(measurements, svn, i + 1);
    }
}

/// JSON collateral is looked up by the measurements and by nothing else.
pub proof fn legacy_lookup_keys_on_measurements(
    provider: LegacyServtdProvider,
    a: IdentityView,
    b: IdentityView,
)
    requires
        a.measurements == b.measurements,
    ensures
        provider.resolved(a) == provider.resolved(b),
        a.measurements is None ==> provider.resolved(a) is None,
{
}

/// CoRIM collateral is looked up by the `SERVTD_INFO_HASH` and by nothing else.
pub proof fn corim_lookup_keys_on_the_hash(
    provider: ServtdCorim,
    a: IdentityView,
    b: IdentityView,
)
    requires
        a.servtd_info_hash == b.servtd_info_hash,
    ensures
        provider.resolved(a) == provider.resolved(b),
        a.servtd_info_hash is None ==> provider.resolved(a) is None,
{
}

} // verus!
