//! What is measured of a policy, field by field, and what the signer anchor is made of.
use vstd::prelude::*;

use crate::canonical::canonical_bytes;
use crate::canonical_laws::canonical_bytes_identify_the_document;
use crate::digest::sha384;
use crate::json::JsonView;
use crate::measurement::{anchor_preimage, measured_data, policy_data, signer_anchor};
use crate::measurement_laws::{lemma_policy_data_valid, lemma_redacted_valid};

verus! {

/// Whether a map holds a value under a name.
pub open spec fn holds(
    members: Map<Seq<char>, JsonView>,
    name: Seq<char>,
    value: JsonView,
) -> bool {
    members.dom().contains(name) && members[name] == value
}

/// Whether two maps hold the same under a name: the same value, or nothing.
pub open spec fn agree_on(
    a: Map<Seq<char>, JsonView>,
    b: Map<Seq<char>, JsonView>,
    name: Seq<char>,
) -> bool {
    &&& a.dom().contains(name) <==> b.dom().contains(name)
    &&& a.dom().contains(name) ==> a[name] == b[name]
}

/// Whether `data` are the members of the `policyData` of a document: those of its member of
/// that name, or its own where it has none.
pub open spec fn are_policy_data(top: JsonView, data: Map<Seq<char>, JsonView>) -> bool {
    match top {
        JsonView::Object(members) => if members.dom().contains("policyData"@) {
            members["policyData"@] == JsonView::Object(data)
        } else {
            members == data
        },
        _ => false,
    }
}

/// Whether members hold a TCB mapping where it belongs, in the collateral with the given
/// members.
pub open spec fn hold_mapping(
    data: Map<Seq<char>, JsonView>,
    collateral: Map<Seq<char>, JsonView>,
) -> bool {
    &&& holds(data, "servtdCollateral"@, JsonView::Object(collateral))
    &&& collateral.dom().contains("servtdTcbMapping"@)
}

/// `policyData` is the member of that name as it is, or else the whole document as it is.
pub proof fn policy_data_is_taken_whole(top: JsonView, data: Map<Seq<char>, JsonView>)
    ensures
        policy_data(top) == Some(JsonView::Object(data)) <==> are_policy_data(top, data),
        policy_data(top) is Some ==> policy_data(top)->0 is Object,
{
}

/// What is measured of a document is its `policyData` field by field: every field but
/// `servtdCollateral` as it is, and of this every field as it is but the two that are left
/// out. Nothing is added, and nothing else is left out.
pub proof fn every_field_but_two_is_measured(
    top: JsonView,
    data: Map<Seq<char>, JsonView>,
    collateral: Map<Seq<char>, JsonView>,
)
    requires
        are_policy_data(top, data),
        hold_mapping(data, collateral),
    ensures
        measured_data(top) is Some,
        measured_data(top)->0 is Object,
        forall|name: Seq<char>|
            name != "servtdCollateral"@ ==> #[trigger] agree_on(
                measured_data(top)->0->Object_0,
                data,
                name,
            ),
        measured_data(top)->0->Object_0.dom().contains("servtdCollateral"@),
        measured_data(top)->0->Object_0["servtdCollateral"@] is Object,
        forall|name: Seq<char>|
            name != "servtdTcbMapping"@ && name != "servtdTcbMappingIssuerChain"@
                ==> #[trigger] agree_on(
                measured_data(top)->0->Object_0["servtdCollateral"@]->Object_0,
                collateral,
                name,
            ),
        !measured_data(top)->0->Object_0["servtdCollateral"@]->Object_0.dom().contains(
            "servtdTcbMapping"@,
        ),
        !measured_data(top)->0->Object_0["servtdCollateral"@]->Object_0.dom().contains(
            "servtdTcbMappingIssuerChain"@,
        ),
{
}

/// Nothing is measured of a document exactly where no `policyData` of it holds a TCB mapping
/// where it belongs.
pub proof fn nothing_is_measured_without_a_mapping(top: JsonView)
    ensures
        measured_data(top) is None <==> forall|
            data: Map<Seq<char>, JsonView>,
            collateral: Map<Seq<char>, JsonView>,
        |
            !(are_policy_data(top, data) && #[trigger] hold_mapping(data, collateral)),
{
    assert forall|data: Map<Seq<char>, JsonView>, collateral: Map<Seq<char>, JsonView>|
        measured_data(top) is None implies !(are_policy_data(top, data) && #[trigger] hold_mapping(
        data,
        collateral,
    )) by {
        if are_policy_data(top, data) && hold_mapping(data, collateral) {
            every_field_but_two_is_measured(top, data, collateral);
        }
    }
    if measured_data(top) is Some {
        let data = policy_data(top)->0->Object_0;
        let collateral = data["servtdCollateral"@]->Object_0;
        assert(are_policy_data(top, data));
        assert(hold_mapping(data, collateral));
    }
}

/// Two policies have the same measured bytes exactly where they agree on every field but
/// `servtdCollateral`, and in this on every field but the TCB mapping and its issuer chain.
/// To change, add or strip any other field changes the bytes; to change the two, or to add
/// or strip the chain, does not.
pub proof fn measured_bytes_change_with_every_field_but_two(
    a: JsonView,
    a_data: Map<Seq<char>, JsonView>,
    a_collateral: Map<Seq<char>, JsonView>,
    b: JsonView,
    b_data: Map<Seq<char>, JsonView>,
    b_collateral: Map<Seq<char>, JsonView>,
)
    requires
        a.valid(),
        b.valid(),
        are_policy_data(a, a_data),
        hold_mapping(a_data, a_collateral),
        are_policy_data(b, b_data),
        hold_mapping(b_data, b_collateral),
    ensures
        canonical_bytes(measured_data(a)->0) == canonical_bytes(measured_data(b)->0) <==> {
            &&& forall|name: Seq<char>|
                name != "servtdCollateral"@ ==> #[trigger] agree_on(a_data, b_data, name)
            &&& forall|name: Seq<char>|
                name != "servtdTcbMapping"@ && name != "servtdTcbMappingIssuerChain"@
                    ==> #[trigger] agree_on(a_collateral, b_collateral, name)
        },
{
    let x = measured_data(a)->0;
    let y = measured_data(b)->0;
    every_field_but_two_is_measured(a, a_data, a_collateral);
    every_field_but_two_is_measured(b, b_data, b_collateral);
    lemma_policy_data_valid(a);
    lemma_policy_data_valid(b);
    lemma_redacted_valid(policy_data(a)->0);
    lemma_redacted_valid(policy_data(b)->0);
    canonical_bytes_identify_the_document(x, y);
    let p = x->Object_0;
    let q = y->Object_0;
    let c = p["servtdCollateral"@]->Object_0;
    let d = q["servtdCollateral"@]->Object_0;
    if x == y {
        assert forall|name: Seq<char>| name != "servtdCollateral"@ implies #[trigger] agree_on(
            a_data,
            b_data,
            name,
        ) by {
            assert(agree_on(p, a_data, name) && agree_on(q, b_data, name));
        }
        assert forall|name: Seq<char>|
            name != "servtdTcbMapping"@ && name
                != "servtdTcbMappingIssuerChain"@ implies #[trigger] agree_on(
            a_collateral,
            b_collateral,
            name,
        ) by {
            assert(agree_on(c, a_collateral, name) && agree_on(d, b_collateral, name));
        }
    }
    if (forall|name: Seq<char>|
        name != "servtdCollateral"@ ==> #[trigger] agree_on(a_data, b_data, name)) && (forall|
        name: Seq<char>,
    |
        name != "servtdTcbMapping"@ && name != "servtdTcbMappingIssuerChain"@
            ==> #[trigger] agree_on(a_collateral, b_collateral, name)) {
        assert forall|name: Seq<char>| #[trigger] agree_on(c, d, name) by {
            if name != "servtdTcbMapping"@ && name != "servtdTcbMappingIssuerChain"@ {
                assert(agree_on(a_collateral, b_collateral, name));
                assert(agree_on(c, a_collateral, name) && agree_on(d, b_collateral, name));
            }
        }
        lemma_agree_everywhere(c, d);
        assert forall|name: Seq<char>| #[trigger] agree_on(p, q, name) by {
            if name != "servtdCollateral"@ {
                assert(agree_on(a_data, b_data, name));
                assert(agree_on(p, a_data, name) && agree_on(q, b_data, name));
            }
        }
        lemma_agree_everywhere(p, q);
    }
}

proof fn lemma_agree_everywhere(a: Map<Seq<char>, JsonView>, b: Map<Seq<char>, JsonView>)
    requires
        forall|name: Seq<char>| #[trigger] agree_on(a, b, name),
    ensures
        a == b,
{
    assert forall|name: Seq<char>| a.dom().contains(name) <==> b.dom().contains(name) by {
        assert(agree_on(a, b, name));
    }
    assert(a.dom() =~= b.dom());
    assert forall|name: Seq<char>| a.dom().contains(name) implies a[name] == b[name] by {
        assert(agree_on(a, b, name));
    }
    assert(a =~= b);
}

/// A bare policy and any document that holds it as its `policyData` have the same measured
/// bytes.
pub proof fn policies_measure_alike_bare_and_wrapped(
    bare: Map<Seq<char>, JsonView>,
    wrapper: Map<Seq<char>, JsonView>,
)
    requires
        !bare.dom().contains("policyData"@),
        holds(wrapper, "policyData"@, JsonView::Object(bare)),
    ensures
        measured_data(JsonView::Object(bare)) == measured_data(JsonView::Object(wrapper)),
{
}

/// The signer anchor is the digest of the ASCII text `MIGTD-RTMR1-ANCHOR-V1`, a zero byte,
/// the digest of the whole root certificate, a zero byte, and the digest of the whole
/// subject.
pub proof fn signer_anchor_is_made_of_whole_certificates(root: Seq<u8>, subject: Seq<u8>)
    ensures
        signer_anchor(root, subject) == sha384(
            seq![
                77u8, 73, 71, 84, 68, 45, 82, 84, 77, 82, 49, 45, 65, 78, 67, 72, 79, 82, 45, 86,
                49, 0,
            ] + sha384(root) + seq![0u8] + sha384(subject),
        ),
{
    let tag = seq![
        77u8, 73, 71, 84, 68, 45, 82, 84, 77, 82, 49, 45, 65, 78, 67, 72, 79, 82, 45, 86, 49, 0,
    ];
    assert(anchor_preimage(sha384(root), sha384(subject)) =~= tag + sha384(root) + seq![0u8]
        + sha384(subject));
}

/// Anchors depend on the digests of whole certificates and on nothing else: where the
/// digests are the same, so are the anchors.
pub proof fn anchors_follow_the_digests(
    root: Seq<u8>,
    subject: Seq<u8>,
    other_root: Seq<u8>,
    other_subject: Seq<u8>,
)
    requires
        sha384(root) == sha384(other_root),
        sha384(subject) == sha384(other_subject),
    ensures
        signer_anchor(root, subject) == signer_anchor(other_root, other_subject),
{
}

} // verus!
