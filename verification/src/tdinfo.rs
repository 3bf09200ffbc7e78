//! The `TDINFO_STRUCT` of a service TD, packed into bytes, and its hash.
use vstd::prelude::*;

use crate::digest::{as_array, digest_sha384, sha384, SHA384_DIGEST_SIZE};
use crate::error::PolicyError;
use crate::measurement::compute_tdinfo_hash;
use crate::report::{MigTdInfoProperty, Report};
use crate::tdinfo_laws::fields_stand_at_their_places;

verus! {

/// The number of reserved bytes at the end of the packed structure.
pub const TDINFO_RESERVED_SIZE: usize = 0x70;

/// The number of bytes of the packed structure: attributes and XFAM of eight bytes each,
/// eight digests, and the reserved bytes.
pub const TDINFO_PACKED_SIZE: usize = 8 + 8 + 8 * SHA384_DIGEST_SIZE + TDINFO_RESERVED_SIZE;

/// The fields of the structure, in their order.
pub struct TdInfoView {
    pub attributes: Seq<u8>,
    pub xfam: Seq<u8>,
    pub mrtd: Seq<u8>,
    pub mrconfig_id: Seq<u8>,
    pub mrowner: Seq<u8>,
    pub mrownerconfig: Seq<u8>,
    pub rtmr0: Seq<u8>,
    pub rtmr1: Seq<u8>,
    pub rtmr2: Seq<u8>,
    pub rtmr3: Seq<u8>,
}

impl TdInfoView {
    /// Whether every field has its size.
    pub open spec fn well_sized(self) -> bool {
        &&& self.attributes.len() == 8
        &&& self.xfam.len() == 8
        &&& self.mrtd.len() == SHA384_DIGEST_SIZE
        &&& self.mrconfig_id.len() == SHA384_DIGEST_SIZE
        &&& self.mrowner.len() == SHA384_DIGEST_SIZE
        &&& self.mrownerconfig.len() == SHA384_DIGEST_SIZE
        &&& self.rtmr0.len() == SHA384_DIGEST_SIZE
        &&& self.rtmr1.len() == SHA384_DIGEST_SIZE
        &&& self.rtmr2.len() == SHA384_DIGEST_SIZE
        &&& self.rtmr3.len() == SHA384_DIGEST_SIZE
    }

    /// The packed structure: the fields one after the other, and zeros in the reserved
    /// bytes.
    pub open spec fn packed(self) -> Seq<u8> {
        self.attributes + self.xfam + self.mrtd + self.mrconfig_id + self.mrowner
            + self.mrownerconfig + self.rtmr0 + self.rtmr1 + self.rtmr2 + self.rtmr3 + Seq::new(
            TDINFO_RESERVED_SIZE as nat,
            |i: int| 0u8,
        )
    }
}

/// Writes bytes at a position, and gives the position after them.
fn put(buf: &mut [u8; TDINFO_PACKED_SIZE], off: usize, src: &[u8]) -> (end: usize)
    requires
        off + src@.len() <= TDINFO_PACKED_SIZE,
    ensures
        end == off + src@.len(),
        final(buf)@ == old(buf)@.take(off as int) + src@ + old(buf)@.skip(end as int),
{
    let ghost before = buf@;
    let mut i: usize = 0;
    while i < src.len()
        invariant
            i <= src@.len(),
            off + src@.len() <= TDINFO_PACKED_SIZE,
            before.len() == TDINFO_PACKED_SIZE,
            buf@ == before.take(off as int) + src@.take(i as int) + before.skip(off + i),
        decreases src@.len() - i,
    {
        buf[off + i] = src[i];
        i += 1;
        assert(buf@ =~= before.take(off as int) + src@.take(i as int) + before.skip(off + i));
    }
    assert(src@.take(src@.len() as int) =~= src@);
    off + src.len()
}

/// Packs the fields of an unmasked `TDINFO_STRUCT` in their order. The reserved bytes at
/// the end are zero: a service TD that is itself bound has no bindings of its own.
pub fn pack_unmasked_tdinfo(
    attributes: &[u8; 8],
    xfam: &[u8; 8],
    mrtd: &[u8; SHA384_DIGEST_SIZE],
    mrconfig_id: &[u8; SHA384_DIGEST_SIZE],
    mrowner: &[u8; SHA384_DIGEST_SIZE],
    mrownerconfig: &[u8; SHA384_DIGEST_SIZE],
    rtmr0: &[u8; SHA384_DIGEST_SIZE],
    rtmr1: &[u8; SHA384_DIGEST_SIZE],
    rtmr2: &[u8; SHA384_DIGEST_SIZE],
    rtmr3: &[u8; SHA384_DIGEST_SIZE],
) -> (r: [u8; TDINFO_PACKED_SIZE])
    ensures
        r@ == (TdInfoView {
            attributes: attributes@,
            xfam: xfam@,
            mrtd: mrtd@,
            mrconfig_id: mrconfig_id@,
            mrowner: mrowner@,
            mrownerconfig: mrownerconfig@,
            rtmr0: rtmr0@,
            rtmr1: rtmr1@,
            rtmr2: rtmr2@,
            rtmr3: rtmr3@,
        }).packed(),
        r@.subrange(0, 8) == attributes@,
        r@.subrange(8, 16) == xfam@,
        r@.subrange(16, 64) == mrtd@,
        r@.subrange(64, 112) == mrconfig_id@,
        r@.subrange(112, 160) == mrowner@,
        r@.subrange(160, 208) == mrownerconfig@,
        r@.subrange(208, 256) == rtmr0@,
        r@.subrange(256, 304) == rtmr1@,
        r@.subrange(304, 352) == rtmr2@,
        r@.subrange(352, 400) == rtmr3@,
        forall|i: int| 400 <= i < 512 ==> #[trigger] r@[i] == 0,
{
    let ghost fields = TdInfoView {
        attributes: attributes@,
        xfam: xfam@,
        mrtd: mrtd@,
        mrconfig_id: mrconfig_id@,
        mrowner: mrowner@,
        mrownerconfig: mrownerconfig@,
        rtmr0: rtmr0@,
        rtmr1: rtmr1@,
        rtmr2: rtmr2@,
        rtmr3: rtmr3@,
    };
    let mut buf = [0u8; TDINFO_PACKED_SIZE];
    let mut off: usize = 0;
    off = put(&mut buf, off, attributes);
    off = put(&mut buf, off, xfam);
    off = put(&mut buf, off, mrtd);
    off = put(&mut buf, off, mrconfig_id);
    off = put(&mut buf, off, mrowner);
    off = put(&mut buf, off, mrownerconfig);
    off = put(&mut buf, off, rtmr0);
    off = put(&mut buf, off, rtmr1);
    off = put(&mut buf, off, rtmr2);
    off = put(&mut buf, off, rtmr3);
    assert(buf@ =~= fields.packed());
    proof {
        fields_stand_at_their_places(fields);
    }
    buf
}

/// The `tdinfo_hash` of a service TD with the given fields: the SHA-384 digest of its
/// packed `TDINFO_STRUCT`.
pub fn compute_tdinfo_hash_from_fields(
    attributes: &[u8; 8],
    xfam: &[u8; 8],
    mrtd: &[u8; SHA384_DIGEST_SIZE],
    mrconfig_id: &[u8; SHA384_DIGEST_SIZE],
    mrowner: &[u8; SHA384_DIGEST_SIZE],
    mrownerconfig: &[u8; SHA384_DIGEST_SIZE],
    rtmr0: &[u8; SHA384_DIGEST_SIZE],
    rtmr1: &[u8; SHA384_DIGEST_SIZE],
    rtmr2: &[u8; SHA384_DIGEST_SIZE],
    rtmr3: &[u8; SHA384_DIGEST_SIZE],
) -> (r: Result<[u8; SHA384_DIGEST_SIZE], PolicyError>)
    ensures
        r is Ok,
        r->Ok_0@ == sha384(
            (TdInfoView {
                attributes: attributes@,
                xfam: xfam@,
                mrtd: mrtd@,
                mrconfig_id: mrconfig_id@,
                mrowner: mrowner@,
                mrownerconfig: mrownerconfig@,
                rtmr0: rtmr0@,
                rtmr1: rtmr1@,
                rtmr2: rtmr2@,
                rtmr3: rtmr3@,
            }).packed(),
        ),
{
    let packed = pack_unmasked_tdinfo(
        attributes,
        xfam,
        mrtd,
        mrconfig_id,
        mrowner,
        mrownerconfig,
        rtmr0,
        rtmr1,
        rtmr2,
        rtmr3,
    );
    let inner = digest_sha384(&packed)?;
    compute_tdinfo_hash(&inner)
}

/// The field at a position of the structure.
pub open spec fn property_at(i: int) -> MigTdInfoProperty {
    if i == 0 {
        MigTdInfoProperty::Attributes
    } else if i == 1 {
        MigTdInfoProperty::Xfam
    } else if i == 2 {
        MigTdInfoProperty::MrTd
    } else if i == 3 {
        MigTdInfoProperty::MrConfigId
    } else if i == 4 {
        MigTdInfoProperty::MrOwner
    } else if i == 5 {
        MigTdInfoProperty::MrOwnerConfig
    } else if i == 6 {
        MigTdInfoProperty::Rtmr0
    } else if i == 7 {
        MigTdInfoProperty::Rtmr1
    } else if i == 8 {
        MigTdInfoProperty::Rtmr2
    } else {
        MigTdInfoProperty::Rtmr3
    }
}

/// The size of a field.
pub open spec fn property_size(property: MigTdInfoProperty) -> int {
    match property {
        MigTdInfoProperty::Attributes => 8,
        MigTdInfoProperty::Xfam => 8,
        _ => SHA384_DIGEST_SIZE as int,
    }
}

/// What is wrong with a field of a report: why it cannot be read, or that it has the
/// wrong size.
pub open spec fn property_fault(report: Report, property: MigTdInfoProperty) -> Option<
    PolicyError,
> {
    match report.property(property) {
        Ok(bytes) => if bytes@.len() == property_size(property) {
            None
        } else {
            Some(PolicyError::InvalidParameter)
        },
        Err(e) => Some(e),
    }
}

/// What is wrong with the first faulty field of a report from position `i` on.
pub open spec fn first_fault(report: Report, i: int) -> Option<PolicyError>
    decreases 10 - i,
{
    if 0 <= i < 10 {
        if property_fault(report, property_at(i)) is Some {
            property_fault(report, property_at(i))
        } else {
            first_fault(report, i + 1)
        }
    } else {
        None
    }
}

/// The fields that a report gives.
pub open spec fn report_fields(report: Report) -> TdInfoView {
    TdInfoView {
        attributes: report.property(MigTdInfoProperty::Attributes)->Ok_0@,
        xfam: report.property(MigTdInfoProperty::Xfam)->Ok_0@,
        mrtd: report.property(MigTdInfoProperty::MrTd)->Ok_0@,
        mrconfig_id: report.property(MigTdInfoProperty::MrConfigId)->Ok_0@,
        mrowner: report.property(MigTdInfoProperty::MrOwner)->Ok_0@,
        mrownerconfig: report.property(MigTdInfoProperty::MrOwnerConfig)->Ok_0@,
        rtmr0: report.property(MigTdInfoProperty::Rtmr0)->Ok_0@,
        rtmr1: report.property(MigTdInfoProperty::Rtmr1)->Ok_0@,
        rtmr2: report.property(MigTdInfoProperty::Rtmr2)->Ok_0@,
        rtmr3: report.property(MigTdInfoProperty::Rtmr3)->Ok_0@,
    }
}

/// The `tdinfo_hash` of the service TD that a report describes. The fields are read in
/// their order; the first that cannot be read or has the wrong size is reported.
pub fn compute_tdinfo_hash_from_report(report: &Report) -> (r: Result<
    [u8; SHA384_DIGEST_SIZE],
    PolicyError,
>)
    ensures
        match first_fault(*report, 0) {
            Some(e) => r == Err::<[u8; SHA384_DIGEST_SIZE], PolicyError>(e),
            None => r is Ok && r->Ok_0@ == sha384(report_fields(*report).packed()),
        },
{
    proof {
        reveal_with_fuel(first_fault, 11);
    }
    let attributes = as_array::<8>(
        report.get_migtd_info_property(&MigTdInfoProperty::Attributes)?,
    )?;
    let xfam = as_array::<8>(
        report.get_migtd_info_property(&MigTdInfoProperty::Xfam)?,
    )?;
    let mrtd = as_array::<SHA384_DIGEST_SIZE>(
        report.get_migtd_info_property(&MigTdInfoProperty::MrTd)?,
    )?;
    let mrconfig_id = as_array::<SHA384_DIGEST_SIZE>(
        report.get_migtd_info_property(&MigTdInfoProperty::MrConfigId)?,
    )?;
    let mrowner = as_array::<SHA384_DIGEST_SIZE>(
        report.get_migtd_info_property(&MigTdInfoProperty::MrOwner)?,
    )?;
    let mrownerconfig = as_array::<SHA384_DIGEST_SIZE>(
        report.get_migtd_info_property(&MigTdInfoProperty::MrOwnerConfig)?,
    )?;
    let rtmr0 = as_array::<SHA384_DIGEST_SIZE>(
        report.get_migtd_info_property(&MigTdInfoProperty::Rtmr0)?,
    )?;
    let rtmr1 = as_array::<SHA384_DIGEST_SIZE>(
        report.get_migtd_info_property(&MigTdInfoProperty::Rtmr1)?,
    )?;
    let rtmr2 = as_array::<SHA384_DIGEST_SIZE>(
        report.get_migtd_info_property(&MigTdInfoProperty::Rtmr2)?,
    )?;
    let rtmr3 = as_array::<SHA384_DIGEST_SIZE>(
        report.get_migtd_info_property(&MigTdInfoProperty::Rtmr3)?,
    )?;
    compute_tdinfo_hash_from_fields(
        &attributes,
        &xfam,
        &mrtd,
        &mrconfig_id,
        &mrowner,
        &mrownerconfig,
        &rtmr0,
        &rtmr1,
        &rtmr2,
        &rtmr3,
    )
}

/// The packed structure has its fixed size, and shows every field: two structures are
/// packed alike exactly where they agree in all fields.
pub proof fn packing_shows_every_field(a: TdInfoView, b: TdInfoView)
    requires
        a.well_sized(),
        b.well_sized(),
    ensures
        a.packed().len() == TDINFO_PACKED_SIZE,
        a.packed() == b.packed() <==> a == b,
{
    let p = a.packed();
    let q = b.packed();
    assert(p.len() == 512);
    assert(p.subrange(0, 8) =~= a.attributes);
    assert(q.subrange(0, 8) =~= b.attributes);
    assert(p.subrange(8, 16) =~= a.xfam);
    assert(q.subrange(8, 16) =~= b.xfam);
    assert(p.subrange(16, 64) =~= a.mrtd);
    assert(q.subrange(16, 64) =~= b.mrtd);
    assert(p.subrange(64, 112) =~= a.mrconfig_id);
    assert(q.subrange(64, 112) =~= b.mrconfig_id);
    assert(p.subrange(112, 160) =~= a.mrowner);
    assert(q.subrange(112, 160) =~= b.mrowner);
    assert(p.subrange(160, 208) =~= a.mrownerconfig);
    assert(q.subrange(160, 208) =~= b.mrownerconfig);
    assert(p.subrange(208, 256) =~= a.rtmr0);
    assert(q.subrange(208, 256) =~= b.rtmr0);
    assert(p.subrange(256, 304) =~= a.rtmr1);
    assert(q.subrange(256, 304) =~= b.rtmr1);
    assert(p.subrange(304, 352) =~= a.rtmr2);
    assert(q.subrange(304, 352) =~= b.rtmr2);
    assert(p.subrange(352, 400) =~= a.rtmr3);
    assert(q.subrange(352, 400) =~= b.rtmr3);
}

} // verus!
