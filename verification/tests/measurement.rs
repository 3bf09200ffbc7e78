use policy::canonical::{canonical_value_bytes, canonical_value_bytes_into};
use policy::digest::{digest_sha384, SHA384_DIGEST_SIZE};
use policy::error::PolicyError;
use policy::json::JsonValue;
use policy::json_codec::parse_json;
use policy::measurement::{
    canonical_policy_data_bytes, compute_signer_anchor, compute_signer_anchor_from_chain_pem,
    compute_tdinfo_hash, extract_canonical_policy_data_bytes, policy_data_of, redact_policy_data,
    SIGNER_ANCHOR_DOMAIN_TAG,
};

#[test]
fn signer_anchor_is_stable_for_fixed_inputs() {
    let root = b"the-root-DER-placeholder";
    let subject = b"CN=MigTD Info Issuer";
    let a = compute_signer_anchor(root, subject).unwrap();
    let a2 = compute_signer_anchor(root, subject).unwrap();
    assert_eq!(a, a2);

    let r = digest_sha384(root).unwrap();
    let s = digest_sha384(subject).unwrap();
    let mut buf = Vec::new();
    buf.extend_from_slice(SIGNER_ANCHOR_DOMAIN_TAG);
    buf.push(0u8);
    buf.extend_from_slice(&r);
    buf.push(0u8);
    buf.extend_from_slice(&s);
    let expected = digest_sha384(&buf).unwrap();
    assert_eq!(&a[..], expected.as_slice());
}

#[test]
fn signer_anchor_changes_with_root_or_subject() {
    let a = compute_signer_anchor(b"root1", b"subj1").unwrap();
    let b = compute_signer_anchor(b"root2", b"subj1").unwrap();
    let c = compute_signer_anchor(b"root1", b"subj2").unwrap();
    assert_ne!(a, b);
    assert_ne!(a, c);
    assert_ne!(b, c);
}

#[test]
fn canonical_value_sorts_keys_at_every_level() {
    let a = parse_json(br#"{"b":{"y":2,"x":1},"a":[{"c":3,"b":2,"a":1}]}"#).unwrap();
    let b = parse_json(br#"{"a":[{"a":1,"b":2,"c":3}],"b":{"x":1,"y":2}}"#).unwrap();
    let out_a = canonical_value_bytes(&a).unwrap();
    let out_b = canonical_value_bytes(&b).unwrap();
    assert_eq!(out_a, out_b);
    assert_eq!(&out_a, br#"{"a":[{"a":1,"b":2,"c":3}],"b":{"x":1,"y":2}}"#);
}

#[test]
fn canonical_value_preserves_array_order() {
    let v = parse_json(br#"[3,1,2]"#).unwrap();
    assert_eq!(canonical_value_bytes(&v).unwrap(), b"[3,1,2]");
}

#[test]
fn canonical_value_emits_no_whitespace() {
    let v = parse_json(b"{\n  \"a\" : 1 ,\n  \"b\" : [ 2 , 3 ]\n}").unwrap();
    assert_eq!(canonical_value_bytes(&v).unwrap(), br#"{"a":1,"b":[2,3]}"#);
}

fn sample_bare_policy_data() -> &'static str {
    r#"{"id":"X-uuid","version":"2.0","policySvn":7,"policy":[{"global":{"tcb":{"tcbDate":{"reference":"2023","operation":"ge"}}}},{"servtd":{"x":1}}],"collaterals":{"majorVersion":1,"minorVersion":0,"teeType":129},"servtdCollateral":{"majorVersion":1,"minorVersion":0,"servtdIdentityIssuerChain":"chain","servtdIdentity":{"tdIdentity":{"id":"identity-1","version":1,"tcbLevels":[]},"signature":"deadbeef"},"servtdTcbMappingIssuerChain":"mapping-chain","servtdTcbMapping":{"svnMappings":[{"isvsvn":1}]}}}"#
}

fn sample_wrapped_policy() -> String {
    format!(
        r#"{{"policyData":{},"signature":"sig"}}"#,
        sample_bare_policy_data()
    )
}

#[test]
fn extract_returns_outer_braces() {
    let out =
        extract_canonical_policy_data_bytes(sample_bare_policy_data().as_bytes()).unwrap();
    assert_eq!(out.first(), Some(&b'{'));
    assert_eq!(out.last(), Some(&b'}'));
}

#[test]
fn extract_redacts_servtd_tcb_mapping() {
    let a = r#"{"id":"X","version":"2","policySvn":1,"policy":[],"collaterals":{},"servtdCollateral":{"majorVersion":1,"minorVersion":0,"servtdIdentityIssuerChain":"c","servtdIdentity":{"tdIdentity":{"id":"i"},"signature":"aa"},"servtdTcbMappingIssuerChain":"c","servtdTcbMapping":{"svnMappings":[{"isvsvn":1}]}}}"#;
    let b = r#"{"id":"X","version":"2","policySvn":1,"policy":[],"collaterals":{},"servtdCollateral":{"majorVersion":1,"minorVersion":0,"servtdIdentityIssuerChain":"c","servtdIdentity":{"tdIdentity":{"id":"i"},"signature":"aa"},"servtdTcbMappingIssuerChain":"c","servtdTcbMapping":{"svnMappings":[{"isvsvn":99},{"isvsvn":100}]}}}"#;
    let out_a = extract_canonical_policy_data_bytes(a.as_bytes()).unwrap();
    let out_b = extract_canonical_policy_data_bytes(b.as_bytes()).unwrap();
    assert_eq!(out_a, out_b);
    assert!(!out_a
        .windows(b"svnMappings".len())
        .any(|w| w == b"svnMappings"));
}

#[test]
fn extract_redacts_only_servtd_tcb_mapping() {
    let a = r#"{"servtdCollateral":{"servtdIdentity":{"tdIdentity":{"id":"i1"},"signature":"aa"},"servtdTcbMapping":{}}}"#;
    let b = r#"{"servtdCollateral":{"servtdIdentity":{"tdIdentity":{"id":"i1"},"signature":"bb"},"servtdTcbMapping":{}}}"#;
    let out_a = extract_canonical_policy_data_bytes(a.as_bytes()).unwrap();
    let out_b = extract_canonical_policy_data_bytes(b.as_bytes()).unwrap();
    assert_ne!(out_a, out_b);
}

#[test]
fn extract_measures_identity_chain_but_redacts_mapping_chain() {
    let base = r#"{"servtdCollateral":{"servtdIdentityIssuerChain":"chain-A","servtdTcbMappingIssuerChain":"chain-A","servtdTcbMapping":{}}}"#;
    let diff_identity = r#"{"servtdCollateral":{"servtdIdentityIssuerChain":"chain-B","servtdTcbMappingIssuerChain":"chain-A","servtdTcbMapping":{}}}"#;
    let diff_mapping = r#"{"servtdCollateral":{"servtdIdentityIssuerChain":"chain-A","servtdTcbMappingIssuerChain":"chain-B","servtdTcbMapping":{}}}"#;
    let out_base = extract_canonical_policy_data_bytes(base.as_bytes()).unwrap();
    let out_diff_identity =
        extract_canonical_policy_data_bytes(diff_identity.as_bytes()).unwrap();
    let out_diff_mapping =
        extract_canonical_policy_data_bytes(diff_mapping.as_bytes()).unwrap();
    assert_ne!(out_base, out_diff_identity);
    assert_eq!(out_base, out_diff_mapping);
}

#[test]
fn extract_redacts_servtd_tcb_mapping_issuer_chain() {
    let a = r#"{"servtdCollateral":{"servtdTcbMappingIssuerChain":"old-leaf-chain","servtdTcbMapping":{}}}"#;
    let b = r#"{"servtdCollateral":{"servtdTcbMappingIssuerChain":"rotated-leaf-chain","servtdTcbMapping":{}}}"#;
    let out_a = extract_canonical_policy_data_bytes(a.as_bytes()).unwrap();
    let out_b = extract_canonical_policy_data_bytes(b.as_bytes()).unwrap();
    assert_eq!(out_a, out_b);
}

#[test]
fn extract_accepts_signed_wrapper_and_matches_bare() {
    let bare = sample_bare_policy_data();
    let wrapped = sample_wrapped_policy();
    let out_bare = extract_canonical_policy_data_bytes(bare.as_bytes()).unwrap();
    let out_wrapped = extract_canonical_policy_data_bytes(wrapped.as_bytes()).unwrap();
    assert_eq!(out_bare, out_wrapped);
}

#[test]
fn extract_is_canonical_across_key_order() {
    let order_a = r#"{"version":"2.0","id":"X","policySvn":7,"policy":[{"b":2,"a":1}],"collaterals":{"teeType":129,"majorVersion":1,"minorVersion":0},"servtdCollateral":{"servtdIdentity":{"tdIdentity":{"version":1,"id":"i"},"signature":"aa"},"servtdTcbMapping":{"x":1}}}"#;
    let order_b = r#"{"policy":[{"a":1,"b":2}],"id":"X","policySvn":7,"version":"2.0","servtdCollateral":{"servtdTcbMapping":{"x":1},"servtdIdentity":{"signature":"aa","tdIdentity":{"id":"i","version":1}}},"collaterals":{"minorVersion":0,"majorVersion":1,"teeType":129}}"#;
    let out_a = extract_canonical_policy_data_bytes(order_a.as_bytes()).unwrap();
    let out_b = extract_canonical_policy_data_bytes(order_b.as_bytes()).unwrap();
    assert_eq!(out_a, out_b);
}

#[test]
fn extract_rejects_non_object_top_level() {
    assert!(extract_canonical_policy_data_bytes(b"\"just-a-string\"").is_err());
    assert!(extract_canonical_policy_data_bytes(b"[]").is_err());
    assert!(extract_canonical_policy_data_bytes(b"null").is_err());
    assert!(extract_canonical_policy_data_bytes(b"42").is_err());
}

#[test]
fn extract_rejects_malformed_json() {
    assert!(extract_canonical_policy_data_bytes(b"{not-json").is_err());
}

#[test]
fn extract_rejects_missing_servtd_collateral() {
    let input = br#"{"version":"2.0","id":"X","policySvn":1,"policy":[],"collaterals":{}}"#;
    assert!(extract_canonical_policy_data_bytes(input).is_err());
}

#[test]
fn extract_rejects_non_object_servtd_collateral() {
    for shape in [
        br#"{"servtdCollateral":null}"#.as_slice(),
        br#"{"servtdCollateral":"a-string"}"#.as_slice(),
        br#"{"servtdCollateral":[]}"#.as_slice(),
        br#"{"servtdCollateral":42}"#.as_slice(),
    ] {
        assert!(
            extract_canonical_policy_data_bytes(shape).is_err(),
            "expected error for shape: {:?}",
            core::str::from_utf8(shape).unwrap()
        );
    }
}

#[test]
fn extract_rejects_servtd_collateral_without_tcb_mapping() {
    let input = br#"{"servtdCollateral":{"a":1}}"#;
    assert!(extract_canonical_policy_data_bytes(input).is_err());

    let input2 = br#"{"servtdCollateral":{"majorVersion":1,"servtdIdentity":{"tdIdentity":{"id":"i"},"signature":"aa"}}}"#;
    assert!(extract_canonical_policy_data_bytes(input2).is_err());
}

#[test]
fn extract_empty_tcb_mapping_object_is_equivalent_to_post_redaction() {
    let pre_final = r#"{"servtdCollateral":{"majorVersion":1,"servtdIdentity":{"tdIdentity":{"id":"i"},"signature":"aa"},"servtdTcbMapping":{}}}"#;
    let final_pol = r#"{"servtdCollateral":{"majorVersion":1,"servtdIdentity":{"tdIdentity":{"id":"i"},"signature":"aa"},"servtdTcbMapping":{"svnMappings":[{"isvsvn":7,"tdMeasurements":{"tdinfo_hash":"deadbeef"}}],"signature":"bb"}}}"#;
    let out_pre = extract_canonical_policy_data_bytes(pre_final.as_bytes()).unwrap();
    let out_final = extract_canonical_policy_data_bytes(final_pol.as_bytes()).unwrap();
    assert_eq!(out_pre, out_final);
}

#[test]
fn extract_measures_forward_and_backward_policy() {
    let with_fwd_bwd = r#"{"policy":[],"forwardPolicy":[{"deny":"all"}],"backwardPolicy":[{"deny":"all"}],"servtdCollateral":{"servtdTcbMapping":{}}}"#;
    let without = r#"{"policy":[],"servtdCollateral":{"servtdTcbMapping":{}}}"#;
    let out_with = extract_canonical_policy_data_bytes(with_fwd_bwd.as_bytes()).unwrap();
    let out_without = extract_canonical_policy_data_bytes(without.as_bytes()).unwrap();
    assert_ne!(out_with, out_without);
}

#[test]
fn extract_sample_policy_canonical_bytes() {
    let out =
        extract_canonical_policy_data_bytes(sample_bare_policy_data().as_bytes()).unwrap();
    let expected = br#"{"collaterals":{"majorVersion":1,"minorVersion":0,"teeType":129},"id":"X-uuid","policy":[{"global":{"tcb":{"tcbDate":{"operation":"ge","reference":"2023"}}}},{"servtd":{"x":1}}],"policySvn":7,"servtdCollateral":{"majorVersion":1,"minorVersion":0,"servtdIdentity":{"signature":"deadbeef","tdIdentity":{"id":"identity-1","tcbLevels":[],"version":1}},"servtdIdentityIssuerChain":"chain"},"version":"2.0"}"#;
    assert_eq!(&out, expected);
}

fn collect_key_paths(
    v: &JsonValue,
    target: &str,
    current: &mut String,
    out: &mut Vec<String>,
) {
    match v {
        JsonValue::Object(members) => {
            for (k, child) in members.iter() {
                let prev_len = current.len();
                if !current.is_empty() {
                    current.push('.');
                }
                current.push_str(k);
                if k == target {
                    out.push(current.clone());
                }
                collect_key_paths(child, target, current, out);
                current.truncate(prev_len);
            }
        }
        JsonValue::Array(items) => {
            for (i, e) in items.iter().enumerate() {
                let prev_len = current.len();
                current.push_str(&format!("[{}]", i));
                collect_key_paths(e, target, current, out);
                current.truncate(prev_len);
            }
        }
        _ => {}
    }
}

#[test]
fn extract_input_has_servtd_tcb_mapping_only_at_expected_path() {
    let v = parse_json(sample_bare_policy_data().as_bytes()).unwrap();
    let mut paths = Vec::new();
    let mut cur = String::new();
    collect_key_paths(&v, "servtdTcbMapping", &mut cur, &mut paths);
    assert_eq!(
        paths.len(),
        1,
        "servtdTcbMapping must appear exactly once in the sample; found at: {:?}",
        paths
    );
    assert_eq!(paths[0], "servtdCollateral.servtdTcbMapping");
}

#[test]
fn extract_canonical_bytes_do_not_contain_field_name() {
    let out =
        extract_canonical_policy_data_bytes(sample_bare_policy_data().as_bytes()).unwrap();
    let needle = b"\"servtdTcbMapping\"";
    assert!(
        !out.windows(needle.len()).any(|w| w == needle),
        "canonical output contained redacted field name: {}",
        core::str::from_utf8(&out).unwrap_or("<non-utf8>")
    );
    let inner_needle = b"\"svnMappings\"";
    assert!(
        !out.windows(inner_needle.len()).any(|w| w == inner_needle),
        "canonical output contained inner mapping key: {}",
        core::str::from_utf8(&out).unwrap_or("<non-utf8>")
    );
    let chain_needle = b"\"servtdTcbMappingIssuerChain\"";
    assert!(
        !out.windows(chain_needle.len()).any(|w| w == chain_needle),
        "canonical output contained redacted issuer-chain field name: {}",
        core::str::from_utf8(&out).unwrap_or("<non-utf8>")
    );
}

#[test]
fn compute_tdinfo_hash_is_identity_passthrough() {
    let inner = [0xAAu8; SHA384_DIGEST_SIZE];
    let got = compute_tdinfo_hash(&inner).unwrap();
    assert_eq!(&got[..], &inner[..]);
}

#[test]
fn compute_tdinfo_hash_rejects_wrong_length() {
    assert!(compute_tdinfo_hash(b"too-short").is_err());
    assert!(compute_tdinfo_hash(&[0u8; SHA384_DIGEST_SIZE + 1]).is_err());
}

fn object(members: Vec<(&str, JsonValue)>) -> JsonValue {
    JsonValue::Object(members.into_iter().map(|(name, v)| (name.to_string(), v)).collect())
}

fn number(text: &str) -> JsonValue {
    JsonValue::Number(text.to_string())
}

#[test]
fn digest_of_known_input() {
    let expected: Vec<u8> = vec![
        0xcb, 0x00, 0x75, 0x3f, 0x45, 0xa3, 0x5e, 0x8b, 0xb5, 0xa0, 0x3d, 0x69, 0x9a, 0xc6, 0x50,
        0x07, 0x27, 0x2c, 0x32, 0xab, 0x0e, 0xde, 0xd1, 0x63, 0x1a, 0x8b, 0x60, 0x5a, 0x43, 0xff,
        0x5b, 0xed, 0x80, 0x86, 0x07, 0x2b, 0xa1, 0xe7, 0xcc, 0x23, 0x58, 0xba, 0xec, 0xa1, 0x34,
        0xc8, 0x25, 0xa7,
    ];
    assert_eq!(digest_sha384(b"abc").unwrap().to_vec(), expected);
}

#[test]
fn domain_tag_is_the_ascii_text() {
    assert_eq!(&SIGNER_ANCHOR_DOMAIN_TAG[..], b"MIGTD-RTMR1-ANCHOR-V1");
}

#[test]
fn anchor_of_a_chain_is_that_of_its_root_and_subject() {
    let expected = compute_signer_anchor(b"root", b"subject").unwrap();
    let ends = |leaf: &[u8]| Some((leaf.to_vec(), b"root".to_vec()));
    let subject = || Some(b"subject".to_vec());
    assert_eq!(compute_signer_anchor_from_chain_pem(ends(b"leaf"), subject()), Ok(expected));
    assert_eq!(compute_signer_anchor_from_chain_pem(ends(b"new leaf"), subject()), Ok(expected));
    let refused = Err(PolicyError::InvalidPolicy);
    assert_eq!(compute_signer_anchor_from_chain_pem(None, subject()), refused);
    assert_eq!(compute_signer_anchor_from_chain_pem(ends(b"leaf"), None), refused);
}

#[test]
fn wrong_length_is_an_invalid_parameter() {
    assert_eq!(compute_tdinfo_hash(&[0u8; 47]), Err(PolicyError::InvalidParameter));
    assert_eq!(compute_tdinfo_hash(&[]), Err(PolicyError::InvalidParameter));
}

#[test]
fn refused_policies_are_invalid() {
    let refused = Err(PolicyError::InvalidPolicy);
    assert_eq!(extract_canonical_policy_data_bytes(b""), refused);
    assert_eq!(extract_canonical_policy_data_bytes(b"{} {}"), refused);
    assert_eq!(extract_canonical_policy_data_bytes(br#"{"policyData":[]}"#), refused);
    assert_eq!(extract_canonical_policy_data_bytes(br#"{"policyData":{}}"#), refused);
}

#[test]
fn scalars_are_written_as_json_literals() {
    let v = parse_json(br#"[null,true,false,0,-1,1.50,1e3,18446744073709551615,""]"#).unwrap();
    assert_eq!(
        canonical_value_bytes(&v).unwrap(),
        br#"[null,true,false,0,-1,1.5,1000.0,18446744073709551615,""]"#
    );
}

#[test]
fn strings_are_escaped_where_they_must_be() {
    let text = "\"\\/\u{8}\t\n\u{c}\r\u{0}\u{1f}\u{7f}\u{e9}\u{1f600}";
    let v = JsonValue::String(text.to_string());
    let expected = "\"\\\"\\\\/\\b\\t\\n\\f\\r\\u0000\\u001f\u{7f}\u{e9}\u{1f600}\"";
    assert_eq!(canonical_value_bytes(&v).unwrap(), expected.as_bytes());
    assert_eq!(parse_json(expected.as_bytes()).unwrap(), v);
}

#[test]
fn names_are_sorted_by_their_bytes() {
    let v = object(vec![
        ("\u{1f600}", number("6")),
        ("\u{ffff}", number("5")),
        ("b", number("4")),
        ("aa", number("3")),
        ("a", number("2")),
        ("B", number("1")),
        ("", number("0")),
    ]);
    let expected = "{\"\":0,\"B\":1,\"a\":2,\"aa\":3,\"b\":4,\"\u{ffff}\":5,\"\u{1f600}\":6}";
    assert_eq!(canonical_value_bytes(&v).unwrap(), expected.as_bytes());
}

#[test]
fn last_member_of_a_name_counts() {
    let v = object(vec![("a", number("1")), ("b", number("2")), ("a", number("3"))]);
    assert_eq!(canonical_value_bytes(&v).unwrap(), br#"{"a":3,"b":2}"#);
    let parsed = parse_json(br#"{"a":1,"b":2,"a":3}"#).unwrap();
    assert_eq!(canonical_value_bytes(&parsed).unwrap(), br#"{"a":3,"b":2}"#);
}

#[test]
fn different_documents_have_different_bytes() {
    let documents: [&[u8]; 12] = [
        b"null", b"true", b"false", b"1", b"12", b"\"1\"", b"[]", b"[1]", b"[1,2]", b"[[1],2]",
        b"{}", br#"{"1":2}"#,
    ];
    for (i, a) in documents.iter().enumerate() {
        for (j, b) in documents.iter().enumerate() {
            let x = canonical_value_bytes(&parse_json(a).unwrap()).unwrap();
            let y = canonical_value_bytes(&parse_json(b).unwrap()).unwrap();
            assert_eq!(x == y, i == j);
        }
    }
}

#[test]
fn canonical_bytes_parse_back_to_the_same_document() {
    let v = parse_json(sample_wrapped_policy().as_bytes()).unwrap();
    let bytes = canonical_value_bytes(&v).unwrap();
    let again = parse_json(&bytes).unwrap();
    assert_eq!(canonical_value_bytes(&again).unwrap(), bytes);
}

#[test]
fn parsed_and_raw_policies_are_measured_alike() {
    let raw = sample_wrapped_policy();
    let parsed = parse_json(raw.as_bytes()).unwrap();
    assert_eq!(
        canonical_policy_data_bytes(parsed),
        extract_canonical_policy_data_bytes(raw.as_bytes())
    );
}

#[test]
fn redaction_takes_the_two_fields_and_no_others() {
    let data = policy_data_of(object(vec![(
        "policyData",
        object(vec![
            ("servtdTcbMapping", number("1")),
            (
                "servtdCollateral",
                object(vec![
                    ("servtdTcbMapping", JsonValue::Null),
                    ("servtdTcbMappingIssuerChain", JsonValue::Null),
                    ("servtdCrl", JsonValue::Bool(true)),
                ]),
            ),
        ]),
    )]))
    .unwrap();
    let rest = redact_policy_data(data).unwrap();
    assert_eq!(
        canonical_value_bytes(&rest).unwrap(),
        br#"{"servtdCollateral":{"servtdCrl":true},"servtdTcbMapping":1}"#
    );
    assert_eq!(redact_policy_data(JsonValue::Null), Err(PolicyError::InvalidPolicy));
}

#[test]
fn integer_documents_read_back_from_their_canonical_bytes() {
    let v = object(vec![
        ("z", JsonValue::Array(vec![number("-9223372036854775808"), number("-1")])),
        ("a", JsonValue::Array(vec![number("0"), number("18446744073709551615")])),
        ("\u{1}\"", JsonValue::String("\\ \u{7f}\u{e9}".to_string())),
        ("", JsonValue::Array(vec![JsonValue::Null, object(vec![]), JsonValue::Array(vec![])])),
    ]);
    let bytes = canonical_value_bytes(&v).unwrap();
    let again = parse_json(&bytes).unwrap();
    assert_eq!(canonical_value_bytes(&again).unwrap(), bytes);
    let sorted = object(vec![
        ("", JsonValue::Array(vec![JsonValue::Null, object(vec![]), JsonValue::Array(vec![])])),
        ("\u{1}\"", JsonValue::String("\\ \u{7f}\u{e9}".to_string())),
        ("a", JsonValue::Array(vec![number("0"), number("18446744073709551615")])),
        ("z", JsonValue::Array(vec![number("-9223372036854775808"), number("-1")])),
    ]);
    assert_eq!(again, sorted);
}

#[test]
fn deep_documents_read_back_up_to_the_limit() {
    let nested = |depth: usize| {
        (0..depth).fold(number("7"), |inner, _| JsonValue::Array(vec![inner]))
    };
    let bytes = canonical_value_bytes(&nested(127)).unwrap();
    assert_eq!(parse_json(&bytes), Ok(nested(127)));
    let bytes = canonical_value_bytes(&nested(128)).unwrap();
    assert_eq!(parse_json(&bytes), Err(PolicyError::InvalidPolicy));
}

#[test]
fn texts_of_one_document_have_the_same_canonical_bytes() {
    let texts = [
        r#"{"a":[1,"/A\u00e9"],"b":{}}"#,
        " {\t\"b\" : { } ,\r\n\"a\" : [ 1 , \"\\/\\u0041\u{e9}\" ] } ",
    ];
    let expected = "{\"a\":[1,\"/A\u{e9}\"],\"b\":{}}";
    for text in texts {
        let v = parse_json(text.as_bytes()).unwrap();
        assert_eq!(canonical_value_bytes(&v).unwrap(), expected.as_bytes());
    }
    let smile = parse_json(br#""\ud83d\ude00""#).unwrap();
    assert_eq!(smile, JsonValue::String("\u{1f600}".to_string()));
}

#[test]
fn canonical_bytes_go_behind_what_is_there() {
    let mut out = b"before".to_vec();
    canonical_value_bytes_into(&JsonValue::Array(vec![JsonValue::Null]), &mut out).unwrap();
    assert_eq!(out, b"before[null]");
}

#[test]
fn raw_value_name_reads_back_where_it_is_not_the_least() {
    let name = "$serde_json::private::RawValue";
    let behind = object(vec![("", number("1")), (name, number("2"))]);
    let bytes = canonical_value_bytes(&behind).unwrap();
    assert_eq!(parse_json(&bytes), Ok(behind));
    let least = object(vec![(name, JsonValue::String("[1]".to_string()))]);
    let bytes = canonical_value_bytes(&least).unwrap();
    assert_eq!(parse_json(&bytes), Ok(JsonValue::Array(vec![number("1")])));
}

#[test]
fn order_white_space_and_escapes_of_a_policy_do_not_count() {
    let bare = r#"{"a":1,"servtdCollateral":{"b":"x","servtdTcbMapping":{}}}"#;
    let expected = extract_canonical_policy_data_bytes(bare.as_bytes()).unwrap();
    assert_eq!(expected, br#"{"a":1,"servtdCollateral":{"b":"x"}}"#);
    let other = "\n{ \"servtdCollateral\" : {\"servtdTcbMapping\":[], \"\\u0062\":\"\\u0078\"},\t\"a\" : 1 }";
    assert_eq!(extract_canonical_policy_data_bytes(other.as_bytes()).unwrap(), expected);
    let signed = format!("{{\"policyData\":{},\"signature\":\"sig\"}}", other);
    assert_eq!(extract_canonical_policy_data_bytes(signed.as_bytes()).unwrap(), expected);
}
