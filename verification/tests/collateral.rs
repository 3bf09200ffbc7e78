use policy::digest::{digest_sha384, SHA384_DIGEST_SIZE};
use policy::error::PolicyError;
use policy::hex::{bytes_to_hex_string, hex_string_to_bytes};
use policy::report::{MigTdInfoProperty, Report};
use policy::servtd_collateral::{
    Measurements, RawServtdTcbMapping, SvnMapping, TcbLevel, TdIdentity, TdTcbMapping,
};
use policy::servtd_provider::{
    measurements_from_report, LegacyServtdProvider, ServtdIdentity, ServtdLookup, ServtdProvider,
};
use policy::tdinfo::{
    compute_tdinfo_hash_from_fields, compute_tdinfo_hash_from_report, pack_unmasked_tdinfo,
    TDINFO_PACKED_SIZE,
};

#[test]
fn packed_tdinfo_size_matches_servtd_ext_layout() {
    assert_eq!(TDINFO_PACKED_SIZE, 512);
    let attributes = [0x01u8; 8];
    let xfam = [0x02u8; 8];
    let m = [
        [0x10u8; SHA384_DIGEST_SIZE],
        [0x20u8; SHA384_DIGEST_SIZE],
        [0x30u8; SHA384_DIGEST_SIZE],
        [0x40u8; SHA384_DIGEST_SIZE],
        [0x50u8; SHA384_DIGEST_SIZE],
        [0x60u8; SHA384_DIGEST_SIZE],
        [0x70u8; SHA384_DIGEST_SIZE],
        [0x80u8; SHA384_DIGEST_SIZE],
    ];
    let packed = pack_unmasked_tdinfo(
        &attributes,
        &xfam,
        &m[0],
        &m[1],
        &m[2],
        &m[3],
        &m[4],
        &m[5],
        &m[6],
        &m[7],
    );
    assert_eq!(packed.len(), 512);
    assert_eq!(&packed[..8], &attributes);
    assert_eq!(&packed[8..16], &xfam);
    for (i, expected) in m.iter().enumerate() {
        let off = 16 + i * SHA384_DIGEST_SIZE;
        assert_eq!(&packed[off..off + SHA384_DIGEST_SIZE], &expected[..]);
    }
    assert!(packed[16 + 8 * SHA384_DIGEST_SIZE..]
        .iter()
        .all(|b| *b == 0));
}

#[test]
fn tdinfo_hash_matches_direct_sha384_formula() {
    let attributes = [0xAAu8; 8];
    let xfam = [0xBBu8; 8];
    let mrtd = [0x11u8; SHA384_DIGEST_SIZE];
    let mrconfig_id = [0x22u8; SHA384_DIGEST_SIZE];
    let mrowner = [0x33u8; SHA384_DIGEST_SIZE];
    let mrownerconfig = [0x44u8; SHA384_DIGEST_SIZE];
    let rtmr0 = [0x55u8; SHA384_DIGEST_SIZE];
    let rtmr1 = [0x66u8; SHA384_DIGEST_SIZE];
    let rtmr2 = [0x77u8; SHA384_DIGEST_SIZE];
    let rtmr3 = [0x88u8; SHA384_DIGEST_SIZE];

    let got = compute_tdinfo_hash_from_fields(
        &attributes,
        &xfam,
        &mrtd,
        &mrconfig_id,
        &mrowner,
        &mrownerconfig,
        &rtmr0,
        &rtmr1,
        &rtmr2,
        &rtmr3,
    )
    .unwrap();

    let packed = pack_unmasked_tdinfo(
        &attributes,
        &xfam,
        &mrtd,
        &mrconfig_id,
        &mrowner,
        &mrownerconfig,
        &rtmr0,
        &rtmr1,
        &rtmr2,
        &rtmr3,
    );
    assert_eq!(packed.len(), 512);
    let expected = digest_sha384(&packed).unwrap();

    assert_eq!(&got[..], expected.as_slice());
}

fn sample_report() -> Report {
    Report {
        attributes: Ok(vec![0xAA; 8]),
        xfam: Ok(vec![0xBB; 8]),
        mrtd: Ok(vec![0x11; 48]),
        mrconfig_id: Ok(vec![0x22; 48]),
        mrowner: Ok(vec![0x33; 48]),
        mrownerconfig: Ok(vec![0x44; 48]),
        rtmr0: Ok(vec![0x55; 48]),
        rtmr1: Ok(vec![0x66; 48]),
        rtmr2: Ok(vec![0x77; 48]),
        rtmr3: Ok(vec![0x88; 48]),
    }
}

fn mapping(entries: Vec<(String, u16)>) -> TdTcbMapping {
    TdTcbMapping {
        id: "mapping".to_string(),
        version: 1,
        issue_date: "2025-01-01T00:00:00Z".to_string(),
        next_update: "2026-01-01T00:00:00Z".to_string(),
        mr_signer: String::new(),
        isv_prod_id: 0,
        svn_mappings: entries
            .into_iter()
            .map(|(tdinfo_hash, isvsvn)| SvnMapping {
                td_measurements: Measurements { tdinfo_hash },
                isvsvn,
            })
            .collect(),
    }
}

#[test]
fn report_hash_is_that_of_its_fields() {
    let got = compute_tdinfo_hash_from_report(&sample_report()).unwrap();
    let expected = compute_tdinfo_hash_from_fields(
        &[0xAA; 8],
        &[0xBB; 8],
        &[0x11; 48],
        &[0x22; 48],
        &[0x33; 48],
        &[0x44; 48],
        &[0x55; 48],
        &[0x66; 48],
        &[0x77; 48],
        &[0x88; 48],
    )
    .unwrap();
    assert_eq!(got, expected);
}

#[test]
fn first_faulty_field_of_a_report_is_reported() {
    let mut report = sample_report();
    report.rtmr3 = Ok(vec![0; 47]);
    assert_eq!(compute_tdinfo_hash_from_report(&report), Err(PolicyError::InvalidParameter));
    report.rtmr0 = Err(PolicyError::InvalidReport);
    assert_eq!(compute_tdinfo_hash_from_report(&report), Err(PolicyError::InvalidReport));
    report.attributes = Ok(vec![0; 48]);
    assert_eq!(compute_tdinfo_hash_from_report(&report), Err(PolicyError::InvalidParameter));
    assert_eq!(measurements_from_report(&report), None);
    assert_eq!(mapping(vec![(String::new(), 1)]).get_engine_svn_by_report(&report), None);
}

#[test]
fn properties_of_a_report_are_told_apart() {
    let report = sample_report();
    let expected = [
        (MigTdInfoProperty::Attributes, 0xAA),
        (MigTdInfoProperty::Xfam, 0xBB),
        (MigTdInfoProperty::MrTd, 0x11),
        (MigTdInfoProperty::MrConfigId, 0x22),
        (MigTdInfoProperty::MrOwner, 0x33),
        (MigTdInfoProperty::MrOwnerConfig, 0x44),
        (MigTdInfoProperty::Rtmr0, 0x55),
        (MigTdInfoProperty::Rtmr1, 0x66),
        (MigTdInfoProperty::Rtmr2, 0x77),
        (MigTdInfoProperty::Rtmr3, 0x88),
    ];
    for (property, byte) in expected {
        assert_eq!(report.get_migtd_info_property(&property).unwrap()[0], byte);
    }
}

#[test]
fn report_and_measurements_give_the_same_svn() {
    let report = sample_report();
    let measurements = measurements_from_report(&report).unwrap();
    let known = mapping(vec![
        ("00".repeat(48), 1),
        (measurements.tdinfo_hash.to_ascii_lowercase(), 5),
        (measurements.tdinfo_hash.clone(), 6),
    ]);
    assert_eq!(known.get_engine_svn_by_report(&report), Some(5));
    assert_eq!(known.get_engine_svn_by_measurements(&measurements), Some(5));
    let hash = compute_tdinfo_hash_from_report(&report).unwrap();
    assert_eq!(known.get_engine_svn_by_tdinfo_hash(&hash), Some(5));
    assert_eq!(mapping(vec![("00".repeat(48), 1)]).get_engine_svn_by_report(&report), None);
}

#[test]
fn engine_svn_ignores_the_case_of_letters() {
    let engine = mapping(vec![("ab".repeat(48), 1), ("CD".repeat(48), 2)]);
    let by = |text: String| {
        engine.get_engine_svn_by_measurements(&Measurements { tdinfo_hash: text })
    };
    assert_eq!(by("ab".repeat(48)), Some(1));
    assert_eq!(by("AB".repeat(48)), Some(1));
    assert_eq!(by("Cd".repeat(48)), Some(2));
    assert_eq!(
        by("00112233445566778899aabbccddeeff00112233445566778899aabbccddeeff00112233445566778899aabbccddeeff".to_string()),
        None
    );
    assert_eq!(engine.get_engine_svn_by_tdinfo_hash(&[0xab; 48]), Some(1));
    assert_eq!(engine.get_engine_svn_by_tdinfo_hash(&[0xcd; 48]), Some(2));
    assert_eq!(engine.get_engine_svn_by_tdinfo_hash(&[0xab; 47]), None);
    assert_eq!(engine.get_engine_svn_by_tdinfo_hash(&[]), None);
}

#[test]
fn letters_outside_ascii_keep_their_case() {
    let engine = mapping(vec![("\u{e9}a".to_string(), 1)]);
    let by = |text: &str| {
        engine.get_engine_svn_by_measurements(&Measurements { tdinfo_hash: text.to_string() })
    };
    assert_eq!(by("\u{e9}A"), Some(1));
    assert_eq!(by("\u{c9}A"), None);
}

#[test]
fn hexadecimal_round_trip() {
    assert_eq!(bytes_to_hex_string(&[0x00, 0x0f, 0xa5, 0xff]), "000FA5FF");
    assert_eq!(hex_string_to_bytes("000fA5fF"), Ok(vec![0x00, 0x0f, 0xa5, 0xff]));
    let all: Vec<u8> = (0..=255).collect();
    assert_eq!(hex_string_to_bytes(&bytes_to_hex_string(&all)), Ok(all));
    assert_eq!(hex_string_to_bytes(""), Ok(vec![]));
    for text in ["0", "0g", "+1", " 1", "\u{e9}", "0\u{e9}1"] {
        assert_eq!(hex_string_to_bytes(text), Err(PolicyError::InvalidParameter));
    }
}

#[test]
fn measurements_are_upper_case_hexadecimal() {
    let measurements = Measurements::new_from_bytes(&[0xde, 0xad]);
    assert_eq!(measurements.tdinfo_hash, "DEAD");
}

fn raw(signature: &str) -> RawServtdTcbMapping {
    RawServtdTcbMapping {
        td_tcb_mapping: "{}".to_string(),
        signature: signature.to_string(),
    }
}

#[test]
fn signature_verdicts_in_their_order() {
    let parsed = || Some(mapping(vec![]));
    assert_eq!(raw("beef").signature_bytes(), Ok(vec![0xbe, 0xef]));
    assert_eq!(raw("beef").verify_signature(true, parsed()), Ok(mapping(vec![])));
    assert_eq!(
        raw("beef").verify_signature(true, None),
        Err(PolicyError::InvalidServtdTcbMapping)
    );
    assert_eq!(
        raw("beef").verify_signature(false, None),
        Err(PolicyError::SignatureVerificationFailed)
    );
    assert_eq!(
        raw("no").verify_signature(false, None),
        Err(PolicyError::InvalidParameter)
    );
    assert_eq!(
        raw("no").verify_signature(true, parsed()),
        Err(PolicyError::InvalidParameter)
    );
}

#[test]
fn unparsed_mapping_is_invalid() {
    assert_eq!(
        RawServtdTcbMapping::deserialize_from_json(None),
        Err(PolicyError::InvalidServtdTcbMapping)
    );
    assert_eq!(
        RawServtdTcbMapping::deserialize_from_json(Some(raw("00"))),
        Ok(raw("00"))
    );
}

fn level(isvsvn: u16, tcb_status: &str) -> TcbLevel {
    TcbLevel {
        isvsvn,
        tcb_date: "2024-01-01T00:00:00Z".to_string(),
        tcb_status: tcb_status.to_string(),
    }
}

#[test]
fn legacy_lookup_resolves_svn_then_level() {
    let tcb_mapping = mapping(vec![("aa".repeat(48), 5), ("bb".repeat(48), 9)]);
    let identity = TdIdentity {
        id: "identity".to_string(),
        version: 1,
        tcb_levels: vec![level(4, "Revoked"), level(5, "UpToDate"), level(5, "OutOfDate")],
    };
    let provider = LegacyServtdProvider::new(&tcb_mapping, &identity);
    let found = Some(ServtdLookup {
        isvsvn: 5,
        tcb_date: "2024-01-01T00:00:00Z".to_string(),
        tcb_status: "UpToDate".to_string(),
    });

    let known = Measurements::new_from_bytes(&[0xaa; 48]);
    let id = ServtdIdentity::from_measurements(&known);
    assert_eq!(provider.lookup(&id), found);
    assert_eq!(provider.lookup(&id.with_hash(&[0xbb; 48])), found);

    let without_level = Measurements::new_from_bytes(&[0xbb; 48]);
    assert_eq!(provider.lookup(&ServtdIdentity::from_measurements(&without_level)), None);
    let unknown = Measurements::new_from_bytes(&[0xcc; 48]);
    assert_eq!(provider.lookup(&ServtdIdentity::from_measurements(&unknown)), None);
    assert_eq!(provider.lookup(&ServtdIdentity::from_hash(&[0xaa; 48])), None);
    assert_eq!(provider.lookup(&ServtdIdentity::default()), None);
}

#[test]
fn measurements_compare_up_to_case() {
    let of = |text: &str| Measurements { tdinfo_hash: text.to_string() };
    let same = |a: &str, b: &str| TdTcbMapping::compare_measurements(&of(a), &of(b));
    assert!(same("aB1", "aB1") && same("aB1", "Ab1") && same("Ab1", "aB1"));
    assert!(!same("ab", "abc") && !same("ab", "ac") && !same("[", "{") && !same("@", "`"));
}
