//! What the measured bytes bind, and what they leave free.
use vstd::prelude::*;

use crate::bytes::{lemma_encode_utf8_ascii, lemma_encode_utf8_concat};
use crate::canonical::{canonical_bytes, members_text, name_order, string_literal};
use crate::canonical_laws::{
    canonical_bytes_identify_the_document, lemma_literal_reads, lemma_name_order_exists,
    lemma_surrounded,
};
use crate::digest::SHA384_DIGEST_SIZE;
use crate::json::JsonView;
use crate::json_codec::{names_no_raw_value, raw_value_name, reads_back};
use crate::json_grammar::{
    core_reads_as, inside, is_member_list, listed, lists_names, reads_as,
};
use crate::measurement::{
    anchor_preimage, measured_data, policy_data, redacted, SIGNER_ANCHOR_DOMAIN_TAG,
};

verus! {

/// The members of the `servtdCollateral` of `policyData`.
pub open spec fn collateral_of(data: JsonView) -> Map<Seq<char>, JsonView> {
    data.member("servtdCollateral"@)->0->Object_0
}

/// Whether two values of `policyData` agree in everything but the TCB mapping and its
/// issuer chain.
pub open spec fn agree_outside_redaction(a: JsonView, b: JsonView) -> bool {
    &&& a->Object_0.remove("servtdCollateral"@) == b->Object_0.remove("servtdCollateral"@)
    &&& collateral_of(a).remove("servtdTcbMapping"@).remove("servtdTcbMappingIssuerChain"@)
        == collateral_of(b).remove("servtdTcbMapping"@).remove("servtdTcbMappingIssuerChain"@)
}

pub(crate) proof fn lemma_redacted_valid(data: JsonView)
    requires
        data.valid(),
        redacted(data) is Some,
    ensures
        redacted(data)->0.valid(),
{
    let members = data->Object_0;
    let collateral = collateral_of(data);
    assert(members.dom().contains("servtdCollateral"@));
    assert(members["servtdCollateral"@].valid());
    let kept = collateral.remove("servtdTcbMapping"@).remove("servtdTcbMappingIssuerChain"@);
    assert(JsonView::Object(kept).valid()) by {
        assert forall|name: Seq<char>| #[trigger]
            kept.dom().contains(name) implies kept[name].valid() by {
            assert(collateral.dom().contains(name));
        }
    }
    let result = members.insert("servtdCollateral"@, JsonView::Object(kept));
    assert forall|name: Seq<char>| #[trigger]
        result.dom().contains(name) implies result[name].valid() by {
        if name != "servtdCollateral"@ {
            assert(members.dom().contains(name));
        }
    }
}

proof fn lemma_redacted_bytes(a: JsonView, b: JsonView)
    requires
        a.valid(),
        b.valid(),
        redacted(a) is Some,
        redacted(b) is Some,
    ensures
        canonical_bytes(redacted(a)->0) == canonical_bytes(redacted(b)->0)
            <==> agree_outside_redaction(a, b),
{
    let x = redacted(a)->0;
    let y = redacted(b)->0;
    lemma_redacted_valid(a);
    lemma_redacted_valid(b);
    canonical_bytes_identify_the_document(x, y);
    let name = "servtdCollateral"@;
    if x == y {
        assert(a->Object_0.remove(name) =~= x->Object_0.remove(name));
        assert(b->Object_0.remove(name) =~= y->Object_0.remove(name));
        assert(x->Object_0[name] == y->Object_0[name]);
    }
    if agree_outside_redaction(a, b) {
        assert(x->Object_0 =~= a->Object_0.remove(name).insert(name, x->Object_0[name]));
        assert(y->Object_0 =~= b->Object_0.remove(name).insert(name, y->Object_0[name]));
    }
}

/// The measured bytes of two policy documents are the same exactly where their
/// `policyData` agree in everything but the TCB mapping and its issuer chain: these two
/// can change freely, and a change anywhere else shows.
pub proof fn measured_bytes_bind_all_but_the_redacted(a: JsonView, b: JsonView)
    requires
        a.valid(),
        b.valid(),
        measured_data(a) is Some,
        measured_data(b) is Some,
    ensures
        canonical_bytes(measured_data(a)->0) == canonical_bytes(measured_data(b)->0)
            <==> agree_outside_redaction(policy_data(a)->0, policy_data(b)->0),
{
    lemma_policy_data_valid(a);
    lemma_policy_data_valid(b);
    lemma_redacted_bytes(policy_data(a)->0, policy_data(b)->0);
}

pub(crate) proof fn lemma_policy_data_valid(top: JsonView)
    requires
        top.valid(),
        policy_data(top) is Some,
    ensures
        policy_data(top)->0.valid(),
{
    if top.member("policyData"@) is Some {
        assert(top->Object_0.dom().contains("policyData"@));
    }
}

/// A signed policy and the bare `policyData` in it are measured alike.
pub proof fn signed_and_bare_policies_measure_alike(signed: JsonView)
    requires
        signed.member("policyData"@) is Some,
        signed.member("policyData"@)->0.member("policyData"@) is None,
    ensures
        measured_data(signed) == measured_data(signed.member("policyData"@)->0),
{
}

/// A signed policy: `policyData` beside a signature.
pub open spec fn signed_policy(data: JsonView, signature: JsonView) -> JsonView {
    JsonView::Object(
        Map::<Seq<char>, JsonView>::empty().insert("policyData"@, data).insert(
            "signature"@,
            signature,
        ),
    )
}

/// The text of a signed policy around the text of its `policyData`.
pub open spec fn signed_text(data: Seq<char>, signature: Seq<char>) -> Seq<char> {
    seq!['{'] + (string_literal("policyData"@) + seq![':'] + data + seq![','] + (string_literal(
        "signature"@,
    ) + seq![':'] + signature)) + seq!['}']
}

/// The text of a bare policy and the text of a signed one around it are measured alike:
/// the signed text reads as the signed policy, can be read as the bare one can, one level
/// of nesting deeper, and what is measured of the two is the same.
pub proof fn signed_and_bare_texts_measure_alike(
    text: Seq<char>,
    data: JsonView,
    signature_text: Seq<char>,
    signature: JsonView,
    depth: int,
)
    requires
        reads_as(text, data),
        reads_back(data, depth),
        names_no_raw_value(data),
        reads_as(signature_text, signature),
        reads_back(signature, depth),
        names_no_raw_value(signature),
        0 <= depth,
        data.member("policyData"@) is None,
    ensures
        reads_as(signed_text(text, signature_text), signed_policy(data, signature)),
        reads_back(signed_policy(data, signature), depth + 1),
        names_no_raw_value(signed_policy(data, signature)),
        measured_data(signed_policy(data, signature)) == measured_data(data),
{
    reveal_strlit("policyData");
    reveal_strlit("signature");
    reveal_strlit("$serde_json::private::RawValue");
    let members = signed_policy(data, signature)->Object_0;
    assert("policyData"@.len() != "signature"@.len());
    assert("policyData"@.len() != raw_value_name().len());
    assert("signature"@.len() != raw_value_name().len());
    let names = seq!["policyData"@, "signature"@];
    let keys = seq![string_literal("policyData"@), string_literal("signature"@)];
    let values = seq![text, signature_text];
    let whole = signed_text(text, signature_text);
    lemma_literal_reads("policyData"@);
    lemma_literal_reads("signature"@);
    assert(lists_names(names, members.dom())) by {
        assert(names[0] == "policyData"@ && names[1] == "signature"@);
    }
    let parts = Seq::new(names.len(), |i: int| keys[i] + seq![':'] + values[i]);
    assert(parts.drop_first().len() == 1);
    assert(listed(parts.drop_first()) == parts[1]);
    assert(listed(parts) == parts[0] + seq![','] + parts[1]);
    assert(inside(whole) =~= listed(parts));
    assert(is_member_list(inside(whole), names, keys, values));
    assert(members.dom().contains("policyData"@));
    assert(core_reads_as(whole, signed_policy(data, signature)));
    lemma_surrounded(whole);
    lemma_name_order_exists(members.dom());
    let order = name_order(members.dom());
    if order.len() > 0 {
        assert(order.contains(order[0]));
    }
}

/// A document has something to measure exactly where its `policyData` is an object
/// whose `servtdCollateral` is an object that holds a `servtdTcbMapping`.
pub proof fn measured_exactly_where_the_mapping_stands(top: JsonView)
    ensures
        measured_data(top) is Some <==> {
            &&& policy_data(top) is Some
            &&& policy_data(top)->0.member("servtdCollateral"@) is Some
            &&& policy_data(top)->0.member("servtdCollateral"@)->0.member(
                "servtdTcbMapping"@,
            ) is Some
        },
{
}

/// What is measured never holds the TCB mapping or its issuer chain.
pub proof fn the_redacted_is_not_measured(top: JsonView)
    requires
        measured_data(top) is Some,
    ensures
        !collateral_of(measured_data(top)->0).dom().contains("servtdTcbMapping"@),
        !collateral_of(measured_data(top)->0).dom().contains("servtdTcbMappingIssuerChain"@),
{
}

/// The measured bytes are those of an object: they begin and end with its braces.
pub proof fn measured_bytes_have_outer_braces(top: JsonView)
    requires
        measured_data(top) is Some,
    ensures
        canonical_bytes(measured_data(top)->0).len() >= 2,
        canonical_bytes(measured_data(top)->0).first() == 0x7b,
        canonical_bytes(measured_data(top)->0).last() == 0x7d,
{
    let members = measured_data(top)->0->Object_0;
    let open = seq!['{'];
    let inner = members_text(members, name_order(members.dom()), 0);
    let close = seq!['}'];
    lemma_encode_utf8_concat(open + inner, close);
    lemma_encode_utf8_concat(open, inner);
    lemma_encode_utf8_ascii(0x7b);
    lemma_encode_utf8_ascii(0x7d);
}

/// What is hashed for the signer anchor shows both digests: it differs as soon as the
/// root or the subject has another digest.
pub proof fn anchor_preimage_shows_both_digests(
    root_digest: Seq<u8>,
    subject_digest: Seq<u8>,
    other_root_digest: Seq<u8>,
    other_subject_digest: Seq<u8>,
)
    requires
        root_digest.len() == SHA384_DIGEST_SIZE,
        other_root_digest.len() == SHA384_DIGEST_SIZE,
    ensures
        anchor_preimage(root_digest, subject_digest) == anchor_preimage(
            other_root_digest,
            other_subject_digest,
        ) <==> root_digest == other_root_digest && subject_digest == other_subject_digest,
{
    let a = anchor_preimage(root_digest, subject_digest);
    let b = anchor_preimage(other_root_digest, other_subject_digest);
    let start: int = SIGNER_ANCHOR_DOMAIN_TAG@.len() as int + 1;
    assert(a.subrange(start, start + 48) =~= root_digest);
    assert(b.subrange(start, start + 48) =~= other_root_digest);
    assert(a.skip(start + 49) =~= subject_digest);
    assert(b.skip(start + 49) =~= other_subject_digest);
}

} // verus!
