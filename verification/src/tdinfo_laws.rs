//! Where each field of a `TDINFO_STRUCT` stands, and how a report is read.
use vstd::prelude::*;

use crate::digest::sha384;
use crate::error::PolicyError;
use crate::report::Report;
use crate::servtd_collateral::reported_measurement;
use crate::tdinfo::{first_fault, report_fields, TdInfoView};
use crate::text_laws::{hexadecimal_is_written_digit_by_digit, stands_for};

verus! {

/// Each field stands unchanged at its place in the packed structure of 512 bytes, and the
/// bytes from 400 on are zero.
pub proof fn fields_stand_at_their_places(t: TdInfoView)
    requires
        t.attributes.len() == 8,
        t.xfam.len() == 8,
        t.mrtd.len() == 48,
        t.mrconfig_id.len() == 48,
        t.mrowner.len() == 48,
        t.mrownerconfig.len() == 48,
        t.rtmr0.len() == 48,
        t.rtmr1.len() == 48,
        t.rtmr2.len() == 48,
        t.rtmr3.len() == 48,
    ensures
        t.packed().len() == 512,
        t.packed().subrange(0, 8) == t.attributes,
        t.packed().subrange(8, 16) == t.xfam,
        t.packed().subrange(16, 64) == t.mrtd,
        t.packed().subrange(64, 112) == t.mrconfig_id,
        t.packed().subrange(112, 160) == t.mrowner,
        t.packed().subrange(160, 208) == t.mrownerconfig,
        t.packed().subrange(208, 256) == t.rtmr0,
        t.packed().subrange(256, 304) == t.rtmr1,
        t.packed().subrange(304, 352) == t.rtmr2,
        t.packed().subrange(352, 400) == t.rtmr3,
        forall|i: int| 400 <= i < 512 ==> #[trigger] t.packed()[i] == 0,
{
    let p = t.packed();
    assert(p.subrange(0, 8) =~= t.attributes);
    assert(p.subrange(8, 16) =~= t.xfam);
    assert(p.subrange(16, 64) =~= t.mrtd);
    assert(p.subrange(64, 112) =~= t.mrconfig_id);
    assert(p.subrange(112, 160) =~= t.mrowner);
    assert(p.subrange(160, 208) =~= t.mrownerconfig);
    assert(p.subrange(208, 256) =~= t.rtmr0);
    assert(p.subrange(256, 304) =~= t.rtmr1);
    assert(p.subrange(304, 352) =~= t.rtmr2);
    assert(p.subrange(352, 400) =~= t.rtmr3);
}

/// The fields of a report, in the order in which they are read.
pub open spec fn report_field(report: Report, k: int) -> Result<Vec<u8>, PolicyError> {
    if k == 0 {
        report.attributes
    } else if k == 1 {
        report.xfam
    } else if k == 2 {
        report.mrtd
    } else if k == 3 {
        report.mrconfig_id
    } else if k == 4 {
        report.mrowner
    } else if k == 5 {
        report.mrownerconfig
    } else if k == 6 {
        report.rtmr0
    } else if k == 7 {
        report.rtmr1
    } else if k == 8 {
        report.rtmr2
    } else {
        report.rtmr3
    }
}

/// What is wrong with a field of a report, given how many bytes it must have: the error
/// with which it cannot be read, or that it is a wrong parameter.
pub open spec fn is_fault(field: Result<Vec<u8>, PolicyError>, size: int, e: PolicyError) -> bool {
    match field {
        Ok(bytes) => bytes@.len() != size && e == PolicyError::InvalidParameter,
        Err(error) => e == error,
    }
}

/// How many bytes a field has.
pub open spec fn field_size(k: int) -> int {
    if k < 2 {
        8
    } else {
        48
    }
}

/// Whether a field of a report can be read and has its size.
pub open spec fn is_sound(report: Report, k: int) -> bool {
    report_field(report, k) matches Ok(bytes) && bytes@.len() == field_size(k)
}

proof fn lemma_first_fault(report: Report, i: int)
    requires
        0 <= i <= 10,
    ensures
        match first_fault(report, i) {
            Some(e) => exists|k: int|
                i <= k < 10 && is_fault(#[trigger] report_field(report, k), field_size(k), e) && (
                forall|j: int| i <= j < k ==> #[trigger] is_sound(report, j)),
            None => forall|k: int| i <= k < 10 ==> #[trigger] is_sound(report, k),
        },
    decreases 10 - i,
{
    if i < 10 {
        lemma_first_fault(report, i + 1);
        if is_sound(report, i) {
            if first_fault(report, i + 1) is Some {
                let e = first_fault(report, i + 1)->0;
                let k = choose|k: int|
                    i + 1 <= k < 10 && is_fault(
                        #[trigger] report_field(report, k),
                        field_size(k),
                        e,
                    ) && (forall|j: int| i + 1 <= j < k ==> #[trigger] is_sound(report, j));
                assert(is_fault(report_field(report, k), field_size(k), e));
                assert forall|j: int| i <= j < k implies #[trigger] is_sound(report, j) by {}
            }
        } else {
            let e = first_fault(report, i)->0;
            assert(is_fault(report_field(report, i), field_size(i), e));
        }
    }
}

/// A report is at fault exactly where a field cannot be read or has the wrong size, and the
/// first such field gives the error.
pub proof fn the_first_faulty_field_is_reported(report: Report)
    ensures
        match first_fault(report, 0) {
            Some(e) => exists|k: int|
                0 <= k < 10 && is_fault(#[trigger] report_field(report, k), field_size(k), e) && (
                forall|j: int| 0 <= j < k ==> #[trigger] is_sound(report, j)),
            None => forall|k: int| 0 <= k < 10 ==> #[trigger] is_sound(report, k),
        },
{
    lemma_first_fault(report, 0);
}

/// A sound report is packed field by field, each at its place.
pub proof fn report_fields_stand_at_their_places(report: Report)
    requires
        forall|k: int| 0 <= k < 10 ==> #[trigger] is_sound(report, k),
    ensures
        report_fields(report).packed().len() == 512,
        report_fields(report).packed().subrange(0, 8) == report.attributes->Ok_0@,
        report_fields(report).packed().subrange(8, 16) == report.xfam->Ok_0@,
        report_fields(report).packed().subrange(16, 64) == report.mrtd->Ok_0@,
        report_fields(report).packed().subrange(64, 112) == report.mrconfig_id->Ok_0@,
        report_fields(report).packed().subrange(112, 160) == report.mrowner->Ok_0@,
        report_fields(report).packed().subrange(160, 208) == report.mrownerconfig->Ok_0@,
        report_fields(report).packed().subrange(208, 256) == report.rtmr0->Ok_0@,
        report_fields(report).packed().subrange(256, 304) == report.rtmr1->Ok_0@,
        report_fields(report).packed().subrange(304, 352) == report.rtmr2->Ok_0@,
        report_fields(report).packed().subrange(352, 400) == report.rtmr3->Ok_0@,
        forall|i: int| 400 <= i < 512 ==> #[trigger] report_fields(report).packed()[i] == 0,
{
    assert(is_sound(report, 0));
    assert(is_sound(report, 1));
    assert(is_sound(report, 2));
    assert(is_sound(report, 3));
    assert(is_sound(report, 4));
    assert(is_sound(report, 5));
    assert(is_sound(report, 6));
    assert(is_sound(report, 7));
    assert(is_sound(report, 8));
    assert(is_sound(report, 9));
    fields_stand_at_their_places(report_fields(report));
}

/// The measurement of a sound report stands, in hexadecimal, for the digest of its packed
/// fields; a report at fault has none.
pub proof fn reported_measurement_stands_for_the_digest(report: Report)
    ensures
        match reported_measurement(report) {
            Some(measurement) => {
                &&& forall|k: int| 0 <= k < 10 ==> #[trigger] is_sound(report, k)
                &&& stands_for(measurement, sha384(report_fields(report).packed()))
            },
            None => exists|k: int| 0 <= k < 10 && !#[trigger] is_sound(report, k),
        },
{
    lemma_first_fault(report, 0);
    hexadecimal_is_written_digit_by_digit(sha384(report_fields(report).packed()));
    if first_fault(report, 0) is Some {
        let e = first_fault(report, 0)->0;
        let k = choose|k: int|
            0 <= k < 10 && is_fault(#[trigger] report_field(report, k), field_size(k), e) && (
            forall|j: int| 0 <= j < k ==> #[trigger] is_sound(report, j));
        assert(!is_sound(report, k));
    }
}

} // verus!
