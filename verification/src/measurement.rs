//! Measurement primitives: what of a policy is measured, the signer anchor, and the
//! hash that identifies a service TD.
//!
//! The policy is measured as the canonical bytes of its `policyData`, without
//! `servtdCollateral.servtdTcbMapping` and
//! `servtdCollateral.servtdTcbMappingIssuerChain`. The mapping must stay updatable
//! after an image is published, and it carries the very hash that the measurement
//! goes into; its issuer chain is measured as the signer anchor already. Every other
//! field is bound by being part of the bytes.
use vstd::prelude::*;
use vstd::utf8::encode_utf8;

use crate::canonical::{canonical_bytes, canonical_value_bytes};
use crate::digest::{as_array, digest_sha384, digestible, sha384, SHA384_DIGEST_SIZE};
use crate::error::PolicyError;
use crate::json::{lemma_member_pushed, take_member, JsonValue, JsonView};
use crate::json_codec::{is_readable_text, parse_json, parsed_json};

verus! {

/// The tag that sets the signer anchor apart from other digests:
/// `MIGTD-RTMR1-ANCHOR-V1` in ASCII.
pub const SIGNER_ANCHOR_DOMAIN_TAG: &'static [u8; 21] = &[
    0x4d, 0x49, 0x47, 0x54, 0x44, 0x2d, 0x52, 0x54, 0x4d, 0x52, 0x31, 0x2d, 0x41, 0x4e, 0x43, 0x48,
    0x4f, 0x52, 0x2d, 0x56, 0x31,
];

/// The byte between the tag and the digests of the signer anchor.
const SIGNER_ANCHOR_SEPARATOR: u8 = 0;

/// The `tdinfo_hash` of a service TD, given the SHA-384 digest of its unmasked,
/// fully populated `TDINFO_STRUCT`: that digest itself. Without masking, which a
/// production service TD has none of, it is what the TDX module keeps as
/// `init_servtd_info_hash`, so the two are compared as they are.
pub fn compute_tdinfo_hash(unmasked_tdinfo_sha384: &[u8]) -> (r: Result<
    [u8; SHA384_DIGEST_SIZE],
    PolicyError,
>)
    ensures
        match r {
            Ok(hash) => unmasked_tdinfo_sha384@.len() == SHA384_DIGEST_SIZE && hash@
                == unmasked_tdinfo_sha384@,
            Err(e) => unmasked_tdinfo_sha384@.len() != SHA384_DIGEST_SIZE && e
                == PolicyError::InvalidParameter,
        },
{
    as_array::<SHA384_DIGEST_SIZE>(unmasked_tdinfo_sha384)
}

/// The `policyData` of a policy document: its member of that name, or the whole
/// document where there is none. It must be an object.
pub open spec fn policy_data(top: JsonView) -> Option<JsonView> {
    let data = match top.member("policyData"@) {
        Some(data) => data,
        None => top,
    };
    if data is Object {
        Some(data)
    } else {
        None
    }
}

/// `policyData` as it is measured: without the TCB mapping, which must be there, and
/// without its issuer chain.
pub open spec fn redacted(data: JsonView) -> Option<JsonView> {
    match data.member("servtdCollateral"@) {
        Some(JsonView::Object(collateral)) => if collateral.dom().contains("servtdTcbMapping"@) {
            Some(
                JsonView::Object(
                    data->Object_0.insert(
                        "servtdCollateral"@,
                        JsonView::Object(
                            collateral.remove("servtdTcbMapping"@).remove(
                                "servtdTcbMappingIssuerChain"@,
                            ),
                        ),
                    ),
                ),
            )
        } else {
            None
        },
        _ => None,
    }
}

/// What of a policy document is measured.
pub open spec fn measured_data(top: JsonView) -> Option<JsonView> {
    match policy_data(top) {
        Some(data) => redacted(data),
        None => None,
    }
}

/// The `policyData` of a parsed policy document, which is either signed, with
/// `policyData` beside a signature, or bare.
pub fn policy_data_of(top: JsonValue) -> (r: Result<JsonValue, PolicyError>)
    ensures
        match r {
            Ok(data) => policy_data(top@) == Some(data@),
            Err(e) => policy_data(top@) is None && e == PolicyError::InvalidPolicy,
        },
{
    match top {
        JsonValue::Object(members) => {
            let ghost all = JsonValue::Object(members)@;
            let (rest, data) = take_member(members, "policyData");
            match data {
                Some(data) => match data {
                    JsonValue::Object(_) => Ok(data),
                    _ => Err(PolicyError::InvalidPolicy),
                },
                None => {
                    assert(JsonValue::Object(rest)@->Object_0 =~= all->Object_0);
                    Ok(JsonValue::Object(rest))
                },
            }
        },
        _ => Err(PolicyError::InvalidPolicy),
    }
}

/// Takes the TCB mapping and its issuer chain out of `policyData`. The shape is
/// strict: without an object `servtdCollateral` that holds a `servtdTcbMapping` it
/// fails, so that a changed schema cannot let the mapping into the measurement.
pub fn redact_policy_data(data: JsonValue) -> (r: Result<JsonValue, PolicyError>)
    ensures
        match r {
            Ok(rest) => redacted(data@) == Some(rest@),
            Err(e) => redacted(data@) is None && e == PolicyError::InvalidPolicy,
        },
{
    let members = match data {
        JsonValue::Object(members) => members,
        _ => return Err(PolicyError::InvalidPolicy),
    };
    let ghost all = JsonValue::Object(members)@->Object_0;
    let (mut rest, collateral) = take_member(members, "servtdCollateral");
    let collateral = match collateral {
        Some(JsonValue::Object(collateral)) => collateral,
        _ => return Err(PolicyError::InvalidPolicy),
    };
    let (collateral, mapping) = take_member(collateral, "servtdTcbMapping");
    if mapping.is_none() {
        return Err(PolicyError::InvalidPolicy);
    }
    let (collateral, _) = take_member(collateral, "servtdTcbMappingIssuerChain");
    let ghost kept = JsonValue::Object(collateral)@;
    let member = ("servtdCollateral".to_owned(), JsonValue::Object(collateral));
    proof {
        lemma_member_pushed(rest@, member);
        assert(all.remove("servtdCollateral"@).insert("servtdCollateral"@, kept) =~= all.insert(
            "servtdCollateral"@,
            kept,
        ));
    }
    rest.push(member);
    Ok(JsonValue::Object(rest))
}

/// The bytes that are measured of a parsed policy document: the canonical bytes of its
/// redacted `policyData`, the outer braces included.
pub fn canonical_policy_data_bytes(top: JsonValue) -> (r: Result<Vec<u8>, PolicyError>)
    ensures
        match measured_data(top@) {
            Some(data) => r is Ok && r->Ok_0@ == canonical_bytes(data),
            None => r == Err::<Vec<u8>, PolicyError>(PolicyError::InvalidPolicy),
        },
{
    let data = policy_data_of(top)?;
    let rest = redact_policy_data(data)?;
    canonical_value_bytes(&rest)
}

/// The bytes that are measured of a policy document: the canonical bytes of its
/// redacted `policyData`, the outer braces included. It fails where the document is no
/// JSON, where `policyData` is no object, and where the TCB mapping that is to be
/// redacted does not stand where it belongs. Of the text itself nothing counts but the
/// document it reads as: neither the order of members nor white space nor escapes.
pub fn extract_canonical_policy_data_bytes(policy_input: &[u8]) -> (r: Result<
    Vec<u8>,
    PolicyError,
>)
    ensures
        match parsed_json(policy_input@) {
            Some(top) => match measured_data(top) {
                Some(data) => r is Ok && r->Ok_0@ == canonical_bytes(data),
                None => r == Err::<Vec<u8>, PolicyError>(PolicyError::InvalidPolicy),
            },
            None => r == Err::<Vec<u8>, PolicyError>(PolicyError::InvalidPolicy),
        },
        parsed_json(policy_input@) matches Some(top) ==> top.valid(),
        forall|text: Seq<char>, top: JsonView| #[trigger]
            is_readable_text(text, top) && policy_input@ == encode_utf8(text) ==> (
            match measured_data(top) {
                Some(data) => r is Ok && r->Ok_0@ == canonical_bytes(data),
                None => r == Err::<Vec<u8>, PolicyError>(PolicyError::InvalidPolicy),
            }),
{
    let top = parse_json(policy_input)?;
    canonical_policy_data_bytes(top)
}

/// What the signer anchor is the digest of, given the digests of the root certificate
/// and of the leaf's subject.
pub open spec fn anchor_preimage(root_digest: Seq<u8>, subject_digest: Seq<u8>) -> Seq<u8> {
    SIGNER_ANCHOR_DOMAIN_TAG@ + seq![0u8] + root_digest + seq![0u8] + subject_digest
}

/// The signer anchor of a root certificate and a leaf's subject, both in DER.
pub open spec fn signer_anchor(root_der: Seq<u8>, leaf_subject_der: Seq<u8>) -> Seq<u8> {
    sha384(anchor_preimage(sha384(root_der), sha384(leaf_subject_der)))
}

/// The signer anchor: the digest of the tag, a zero byte, the digest of the root
/// certificate, a zero byte and the digest of the leaf's subject.
pub fn compute_signer_anchor(root_der: &[u8], leaf_subject_der: &[u8]) -> (r: Result<
    [u8; SHA384_DIGEST_SIZE],
    PolicyError,
>)
    ensures
        match r {
            Ok(anchor) => {
                &&& digestible(root_der@)
                &&& digestible(leaf_subject_der@)
                &&& anchor@ == signer_anchor(root_der@, leaf_subject_der@)
                &&& anchor@ == sha384(
                    SIGNER_ANCHOR_DOMAIN_TAG@ + seq![0u8] + sha384(root_der@) + seq![0u8] + sha384(
                        leaf_subject_der@,
                    ),
                )
            },
            Err(e) => {
                &&& !digestible(root_der@) || !digestible(leaf_subject_der@)
                &&& e == PolicyError::HashCalculation
            },
        },
{
    let root_digest = digest_sha384(root_der)?;
    let subject_digest = digest_sha384(leaf_subject_der)?;
    let mut preimage: Vec<u8> = Vec::new();
    preimage.extend_from_slice(SIGNER_ANCHOR_DOMAIN_TAG);
    preimage.push(SIGNER_ANCHOR_SEPARATOR);
    preimage.extend_from_slice(&root_digest);
    preimage.push(SIGNER_ANCHOR_SEPARATOR);
    preimage.extend_from_slice(&subject_digest);
    assert(preimage@ =~= anchor_preimage(root_digest@, subject_digest@));
    digest_sha384(preimage.as_slice())
}

/// The signer anchor of a certificate chain, leaf first, given what was read from it:
/// the leaf and the root certificate in DER, and the subject of the leaf in DER. Where
/// either could not be read, the chain is refused. Of the leaf nothing counts but its
/// subject, and of the certificates between leaf and root nothing at all.
pub fn compute_signer_anchor_from_chain_pem(
    leaf_and_root_der: Option<(Vec<u8>, Vec<u8>)>,
    leaf_subject_der: Option<Vec<u8>>,
) -> (r: Result<[u8; SHA384_DIGEST_SIZE], PolicyError>)
    ensures
        match (leaf_and_root_der, leaf_subject_der) {
            (Some(ends), Some(subject)) => match r {
                Ok(anchor) => {
                    &&& digestible(ends.1@)
                    &&& digestible(subject@)
                    &&& anchor@ == signer_anchor(ends.1@, subject@)
                    &&& anchor@ == sha384(
                        SIGNER_ANCHOR_DOMAIN_TAG@ + seq![0u8] + sha384(ends.1@) + seq![0u8]
                            + sha384(subject@),
                    )
                },
                Err(e) => {
                    &&& !digestible(ends.1@) || !digestible(subject@)
                    &&& e == PolicyError::HashCalculation
                },
            },
            _ => r == Err::<[u8; SHA384_DIGEST_SIZE], PolicyError>(PolicyError::InvalidPolicy),
        },
{
    let root_der = match leaf_and_root_der {
        Some((_, root_der)) => root_der,
        None => return Err(PolicyError::InvalidPolicy),
    };
    let subject_der = match leaf_subject_der {
        Some(subject_der) => subject_der,
        None => return Err(PolicyError::InvalidPolicy),
    };
    compute_signer_anchor(root_der.as_slice(), subject_der.as_slice())
}

} // verus!
