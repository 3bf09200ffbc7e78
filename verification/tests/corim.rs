use corim::builder::{ComidBuilder, CorimBuilder};
use corim::cbor::value::Value;
use corim::profile::intel::{MVAL_TEE_TCBDATE, MVAL_TEE_TCBSTATUS};
use corim::types::common::{ClassIdChoice, InstanceIdChoice, MeasuredElement, TagIdChoice};
use corim::types::corim::CorimId;
use corim::types::environment::{ClassMap, EnvironmentMap};
use corim::types::measurement::{Digest, MeasurementMap, MeasurementValuesMap, SvnChoice};
use corim::types::triples::{
    CesCondition, ConditionalEndorsementSeriesTriple, ConditionalSeriesRecord, ReferenceTriple,
};
use policy::comid::{
    CborValue, ClassId, Comid, EndorsementSeries, Environment, InstanceId, Measurement,
    MeasurementKey, ReferenceValues, SeriesRecord, Svn,
};
use policy::error::PolicyError;
use policy::servtd_collateral::Measurements;
use policy::servtd_corim::{
    ces_svn_for_hash, env_matches, is_servtd_hash_environment, is_svn_tcb_environment,
    measurement_level, read_epoch, ServtdCorim, SERVTD_HASH_CLASS_UUID,
    SERVTD_HASH_INSTANCE_BYTES, SVN_TCB_INSTANCE_BYTES,
};
use policy::servtd_provider::{ServtdIdentity, ServtdProvider};

/// The algorithm that the digests are labelled with.
const SHA256_ALG: i64 = 1;

fn class() -> ClassMap {
    ClassMap {
        class_id: Some(ClassIdChoice::Uuid(SERVTD_HASH_CLASS_UUID)),
        vendor: None,
        model: None,
        layer: None,
        index: None,
    }
}

fn servtd_hash_env() -> EnvironmentMap {
    EnvironmentMap {
        class: Some(class()),
        instance: Some(InstanceIdChoice::Bytes(SERVTD_HASH_INSTANCE_BYTES.to_vec())),
        group: None,
    }
}

fn svn_tcb_env() -> EnvironmentMap {
    EnvironmentMap {
        class: Some(class()),
        instance: Some(InstanceIdChoice::Bytes(SVN_TCB_INSTANCE_BYTES.to_vec())),
        group: None,
    }
}

fn ref_triple(hash: &[u8]) -> ReferenceTriple {
    ReferenceTriple::new(
        servtd_hash_env(),
        vec![MeasurementMap {
            mkey: None,
            mval: MeasurementValuesMap {
                digests: Some(vec![Digest::new(SHA256_ALG, hash.to_vec())]),
                ..MeasurementValuesMap::new()
            },
            authorized_by: None,
        }],
    )
}

fn ces_triple(hash: &[u8], svn: u16) -> ConditionalEndorsementSeriesTriple {
    let condition = CesCondition {
        environment: servtd_hash_env(),
        claims_list: Vec::new(),
        authorized_by: None,
    };
    let selection = MeasurementMap {
        mkey: None,
        mval: MeasurementValuesMap {
            digests: Some(vec![Digest::new(SHA256_ALG, hash.to_vec())]),
            ..MeasurementValuesMap::new()
        },
        authorized_by: None,
    };
    let addition = MeasurementMap {
        mkey: None,
        mval: MeasurementValuesMap {
            svn: Some(SvnChoice::ExactValue(svn as u64)),
            ..MeasurementValuesMap::new()
        },
        authorized_by: None,
    };
    ConditionalEndorsementSeriesTriple::new(
        condition,
        vec![ConditionalSeriesRecord::new(vec![selection], vec![addition])],
    )
}

/// A TCB mapping: a reference triple and an endorsement series per `(hash, svn)`.
fn build_tcb_mapping(entries: &[(Vec<u8>, u16)]) -> Vec<u8> {
    let mut comid = ComidBuilder::new(TagIdChoice::Text("migtd-tcb-mapping".into()));
    for (hash, svn) in entries {
        comid = comid.add_reference_triple(ref_triple(hash));
        comid = comid.add_conditional_endorsement_series(ces_triple(hash, *svn));
    }
    let comid = comid.build().expect("build tcb-mapping comid");
    CorimBuilder::new(CorimId::Text("migtd-tcb-mapping".into()))
        .add_comid_tag(comid)
        .expect("attach comid")
        .build_bytes()
        .expect("encode corim")
}

/// A TD identity: a measurement per security version.
fn build_td_identity(levels: &[(u16, i64, &str)]) -> Vec<u8> {
    let mut measurements = Vec::new();
    for (svn, date, status) in levels {
        let mut mval = MeasurementValuesMap::new();
        mval.extra_entries.insert(
            MVAL_TEE_TCBDATE,
            Value::Tag(1, Box::new(Value::Integer(*date as i128))),
        );
        mval.extra_entries
            .insert(MVAL_TEE_TCBSTATUS, Value::Text(status.to_string()));
        measurements.push(MeasurementMap {
            mkey: Some(MeasuredElement::Uint(*svn as u64)),
            mval,
            authorized_by: None,
        });
    }
    let comid = ComidBuilder::new(TagIdChoice::Text("migtd-td-identity".into()))
        .add_reference_triple(ReferenceTriple::new(svn_tcb_env(), measurements))
        .build()
        .expect("build td-identity comid");
    CorimBuilder::new(CorimId::Text("migtd-td-identity".into()))
        .add_comid_tag(comid)
        .expect("attach comid")
        .build_bytes()
        .expect("encode corim")
}

fn hash(byte: u8) -> Vec<u8> {
    vec![byte; 48]
}

#[test]
fn hash_lookup_resolves_svn_then_level() {
    let tcb = build_tcb_mapping(&[(hash(0xAA), 5), (hash(0xBB), 7)]);
    // 2024-01-01T00:00:00Z = 1704067200 ; 2025-06-01T00:00:00Z = 1748736000
    let id = build_td_identity(&[
        (5, 1_704_067_200, "UpToDate"),
        (7, 1_748_736_000, "OutOfDate"),
    ]);
    let provider = ServtdCorim::decode(&tcb, &id, 0).expect("decode");
    assert_eq!(provider.comid_counts(), (1, 1));

    let hit = provider
        .lookup(&ServtdIdentity::from_hash(&hash(0xAA)))
        .expect("match");
    assert_eq!(hit.isvsvn, 5);
    assert_eq!(hit.tcb_date, "2024-01-01T00:00:00Z");
    assert_eq!(hit.tcb_status, "UpToDate");

    let hit2 = provider
        .lookup(&ServtdIdentity::from_hash(&hash(0xBB)))
        .expect("match");
    assert_eq!(hit2.isvsvn, 7);
    assert_eq!(hit2.tcb_date, "2025-06-01T00:00:00Z");
    assert_eq!(hit2.tcb_status, "OutOfDate");
}

#[test]
fn unknown_hash_misses() {
    let tcb = build_tcb_mapping(&[(hash(0xAA), 5)]);
    let id = build_td_identity(&[(5, 1_704_067_200, "UpToDate")]);
    let provider = ServtdCorim::decode(&tcb, &id, 0).expect("decode");
    assert!(provider
        .lookup(&ServtdIdentity::from_hash(&hash(0xCC)))
        .is_none());
}

#[test]
fn known_hash_but_missing_level_misses() {
    // SVN 9 has a mapping but no TD Identity level.
    let tcb = build_tcb_mapping(&[(hash(0xAA), 9)]);
    let id = build_td_identity(&[(5, 1_704_067_200, "UpToDate")]);
    let provider = ServtdCorim::decode(&tcb, &id, 0).expect("decode");
    assert!(provider
        .lookup(&ServtdIdentity::from_hash(&hash(0xAA)))
        .is_none());
}

#[test]
fn wrong_length_hash_misses() {
    let tcb = build_tcb_mapping(&[(hash(0xAA), 5)]);
    let id = build_td_identity(&[(5, 1_704_067_200, "UpToDate")]);
    let provider = ServtdCorim::decode(&tcb, &id, 0).expect("decode");
    assert!(provider
        .lookup(&ServtdIdentity::from_hash(&[0xAA; 32]))
        .is_none());
}

#[test]
fn instances_are_the_ascii_texts() {
    assert_eq!(&SERVTD_HASH_INSTANCE_BYTES[..], b"servtd-hash");
    assert_eq!(&SVN_TCB_INSTANCE_BYTES[..], b"svn-tcb");
}

#[test]
fn refused_documents_are_told_apart() {
    let tcb = build_tcb_mapping(&[(hash(0xAA), 5)]);
    let id = build_td_identity(&[(5, 0, "UpToDate")]);
    assert!(matches!(
        ServtdCorim::decode(b"", &id, 0),
        Err(PolicyError::InvalidServtdTcbMapping)
    ));
    assert!(matches!(
        ServtdCorim::decode(b"", b"", 0),
        Err(PolicyError::InvalidServtdTcbMapping)
    ));
    assert!(matches!(
        ServtdCorim::decode(&tcb, &id[1..], 0),
        Err(PolicyError::InvalidServtdIdentity)
    ));
    assert_eq!(
        ServtdCorim::from_decoded(None, Some(vec![])),
        Err(PolicyError::InvalidServtdTcbMapping)
    );
    assert_eq!(
        ServtdCorim::from_decoded(Some(vec![]), None),
        Err(PolicyError::InvalidServtdIdentity)
    );
}

#[test]
fn corim_lookup_ignores_measurements() {
    let tcb = build_tcb_mapping(&[(hash(0xAA), 5)]);
    let id = build_td_identity(&[(5, 1_704_067_200, "UpToDate")]);
    let provider = ServtdCorim::decode(&tcb, &id, 0).expect("decode");
    let measurements = Measurements::new_from_bytes(&hash(0xAA));
    let by_measurements = ServtdIdentity::from_measurements(&measurements);
    assert!(provider.lookup(&by_measurements).is_none());
    assert!(provider.lookup(&ServtdIdentity::default()).is_none());
    let known = hash(0xAA);
    assert_eq!(provider.lookup(&by_measurements.with_hash(&known)).unwrap().isvsvn, 5);
}

#[test]
fn decoded_documents_hold_what_was_encoded() {
    let tcb = build_tcb_mapping(&[(hash(0xAA), 5)]);
    let id = build_td_identity(&[(5, -1, "UpToDate")]);
    let decoded = ServtdCorim::decode(&tcb, &id, 0).expect("decode");
    let reference = ReferenceValues {
        environment: environment(b"servtd-hash"),
        measurements: vec![with_digest(0xAA)],
    };
    let mapping = Comid {
        conditional_endorsement_series: Some(vec![series(vec![record(0xAA, Some(Svn::Exact(5)))])]),
        reference_triples: Some(vec![reference]),
    };
    let identity = Comid {
        conditional_endorsement_series: None,
        reference_triples: Some(vec![ReferenceValues {
            environment: environment(b"svn-tcb"),
            measurements: vec![Measurement {
                mkey: Some(MeasurementKey::Uint(5)),
                svn: None,
                digests: None,
                extra_entries: vec![
                    (-88, CborValue::Text("UpToDate".to_string())),
                    (-72, CborValue::Tag(1, Box::new(CborValue::Integer(-1)))),
                ],
            }],
        }]),
    };
    assert_eq!(
        Ok(decoded),
        ServtdCorim::from_decoded(Some(vec![mapping]), Some(vec![identity]))
    );
}

fn environment(instance: &[u8]) -> Environment {
    Environment {
        class_id: Some(ClassId::Uuid(SERVTD_HASH_CLASS_UUID)),
        instance: Some(InstanceId::Bytes(instance.to_vec())),
    }
}

fn empty() -> Measurement {
    Measurement { mkey: None, svn: None, digests: None, extra_entries: vec![] }
}

fn with_digest(byte: u8) -> Measurement {
    Measurement { digests: Some(vec![hash(byte)]), ..empty() }
}

fn record(byte: u8, svn: Option<Svn>) -> SeriesRecord {
    SeriesRecord {
        selection: vec![with_digest(byte)],
        addition: vec![Measurement { svn, ..empty() }],
    }
}

fn series(records: Vec<SeriesRecord>) -> EndorsementSeries {
    EndorsementSeries { environment: environment(b"servtd-hash"), series: records }
}

#[test]
fn only_the_first_record_counts() {
    let second = series(vec![
        record(0xBB, Some(Svn::Exact(1))),
        record(0xAA, Some(Svn::Exact(7))),
    ]);
    assert_eq!(ces_svn_for_hash(&second, &hash(0xBB)), Some(1));
    assert_eq!(ces_svn_for_hash(&second, &hash(0xAA)), None);
    assert_eq!(ces_svn_for_hash(&second, &hash(0xCC)), None);
    let first = series(vec![
        record(0xAA, Some(Svn::Exact(2))),
        record(0xAA, Some(Svn::Exact(3))),
    ]);
    assert_eq!(ces_svn_for_hash(&first, &hash(0xAA)), Some(2));
    assert_eq!(ces_svn_for_hash(&series(vec![]), &hash(0xAA)), None);
}

#[test]
fn first_record_must_add_an_exact_version() {
    let without = |addition| {
        series(vec![
            SeriesRecord { selection: vec![with_digest(0xAA)], addition },
            record(0xAA, Some(Svn::Exact(3))),
        ])
    };
    let of = |svn| Measurement { svn, ..empty() };
    for addition in [
        vec![],
        vec![of(None)],
        vec![of(Some(Svn::Other))],
        vec![of(None), of(Some(Svn::Exact(2)))],
    ] {
        assert_eq!(ces_svn_for_hash(&without(addition), &hash(0xAA)), None);
    }
}

#[test]
fn version_must_fit_in_sixteen_bits() {
    let largest = series(vec![record(0xAA, Some(Svn::Exact(65_535)))]);
    assert_eq!(ces_svn_for_hash(&largest, &hash(0xAA)), Some(65_535));
    let too_large = series(vec![
        record(0xAA, Some(Svn::Exact(65_536))),
        record(0xAA, Some(Svn::Exact(1))),
    ]);
    assert_eq!(ces_svn_for_hash(&too_large, &hash(0xAA)), None);
}

#[test]
fn only_the_first_digest_of_the_first_selection_counts() {
    let selection = vec![
        Measurement { digests: Some(vec![hash(0xAA), hash(0xBB)]), ..empty() },
        with_digest(0xCC),
    ];
    let addition = vec![Measurement { svn: Some(Svn::Exact(4)), ..empty() }];
    let all = series(vec![SeriesRecord { selection, addition }]);
    assert_eq!(ces_svn_for_hash(&all, &hash(0xAA)), Some(4));
    assert_eq!(ces_svn_for_hash(&all, &hash(0xBB)), None);
    assert_eq!(ces_svn_for_hash(&all, &hash(0xCC)), None);
    for selection in [vec![], vec![empty()], vec![empty(), with_digest(0xAA)]] {
        let addition = vec![Measurement { svn: Some(Svn::Exact(4)), ..empty() }];
        let all = series(vec![SeriesRecord { selection, addition }]);
        assert_eq!(ces_svn_for_hash(&all, &hash(0xAA)), None);
    }
}

#[test]
fn other_environments_do_not_count() {
    let environments = vec![
        environment(b"svn-tcb"),
        environment(b"servtd-has"),
        Environment { class_id: None, ..environment(b"servtd-hash") },
        Environment { class_id: Some(ClassId::Other), ..environment(b"servtd-hash") },
        Environment { class_id: Some(ClassId::Uuid([0; 16])), ..environment(b"servtd-hash") },
        Environment { instance: None, ..environment(b"servtd-hash") },
        Environment { instance: Some(InstanceId::Other), ..environment(b"servtd-hash") },
    ];
    for environment in environments {
        let all = EndorsementSeries {
            environment,
            series: vec![record(0xAA, Some(Svn::Exact(1)))],
        };
        assert_eq!(ces_svn_for_hash(&all, &hash(0xAA)), None);
    }
}

#[test]
fn first_known_tag_counts() {
    let tag = |list| Comid { conditional_endorsement_series: list, reference_triples: None };
    let mapping = vec![
        tag(None),
        tag(Some(vec![
            series(vec![record(0xAA, Some(Svn::Exact(65_536)))]),
            series(vec![record(0xBB, Some(Svn::Exact(2)))]),
        ])),
        tag(Some(vec![
            series(vec![record(0xAA, Some(Svn::Exact(3)))]),
            series(vec![record(0xBB, Some(Svn::Exact(4)))]),
        ])),
    ];
    let provider = ServtdCorim::from_decoded(Some(mapping), Some(vec![])).unwrap();
    assert_eq!(provider.svn_for_hash(&hash(0xAA)), Some(3));
    assert_eq!(provider.svn_for_hash(&hash(0xBB)), Some(2));
    assert_eq!(provider.svn_for_hash(&hash(0xCC)), None);
    assert_eq!(provider.comid_counts(), (3, 0));
}

fn level(svn: u64, epoch: i128, status: &str) -> Measurement {
    Measurement {
        mkey: Some(MeasurementKey::Uint(svn)),
        extra_entries: vec![
            (-72, CborValue::Integer(epoch)),
            (-88, CborValue::Text(status.to_string())),
        ],
        ..empty()
    }
}

#[test]
fn first_level_of_a_version_counts() {
    let tag = |list| Comid { conditional_endorsement_series: None, reference_triples: list };
    let values = |instance: &[u8], measurements| ReferenceValues {
        environment: environment(instance),
        measurements,
    };
    let bare = Measurement { mkey: Some(MeasurementKey::Uint(6)), ..empty() };
    let identity = vec![
        tag(None),
        tag(Some(vec![
            values(b"servtd-hash", vec![level(5, 1, "Revoked")]),
            values(
                b"svn-tcb",
                vec![
                    Measurement { mkey: Some(MeasurementKey::Other), ..level(5, 2, "Other") },
                    Measurement { mkey: None, ..level(5, 2, "None") },
                    level(65_541, 3, "Large"),
                    level(5, 86_400, "UpToDate"),
                    level(5, 0, "OutOfDate"),
                    bare,
                ],
            ),
        ])),
        tag(Some(vec![values(b"svn-tcb", vec![level(6, 0, "UpToDate"), level(7, 0, "Late")])])),
    ];
    let provider = ServtdCorim::from_decoded(Some(vec![]), Some(identity)).unwrap();
    let text = |date: &str, status: &str| Some((date.to_string(), status.to_string()));
    assert_eq!(provider.level_for_svn(5), text("1970-01-02T00:00:00Z", "UpToDate"));
    assert_eq!(provider.level_for_svn(6), None);
    assert_eq!(provider.level_for_svn(7), text("1970-01-01T00:00:00Z", "Late"));
    assert_eq!(provider.level_for_svn(8), None);
}

#[test]
fn epochs_are_integers_bare_or_tagged() {
    let tagged = |tag, inner| CborValue::Tag(tag, Box::new(inner));
    assert_eq!(read_epoch(&CborValue::Integer(7)), Some(7));
    assert_eq!(read_epoch(&tagged(1, CborValue::Integer(-7))), Some(-7));
    assert_eq!(read_epoch(&tagged(0, CborValue::Integer(7))), None);
    assert_eq!(read_epoch(&tagged(1, tagged(1, CborValue::Integer(7)))), None);
    assert_eq!(read_epoch(&tagged(1, CborValue::Text("7".to_string()))), None);
    assert_eq!(read_epoch(&CborValue::Other), None);
    assert_eq!(read_epoch(&CborValue::Integer(i64::MAX as i128)), Some(i64::MAX));
    assert_eq!(read_epoch(&CborValue::Integer(i64::MAX as i128 + 1)), None);
    assert_eq!(read_epoch(&CborValue::Integer(i64::MIN as i128)), Some(i64::MIN));
    assert_eq!(read_epoch(&CborValue::Integer(i64::MIN as i128 - 1)), None);
}

#[test]
fn level_needs_a_date_and_a_status() {
    let with = |extra_entries| Measurement { extra_entries, ..empty() };
    let date = || (-72, CborValue::Integer(0));
    let status = || (-88, CborValue::Text("UpToDate".to_string()));
    assert_eq!(
        measurement_level(&with(vec![status(), date()])),
        Some(("1970-01-01T00:00:00Z".to_string(), "UpToDate".to_string()))
    );
    assert_eq!(measurement_level(&with(vec![date()])), None);
    assert_eq!(measurement_level(&with(vec![status()])), None);
    assert_eq!(measurement_level(&with(vec![date(), (-88, CborValue::Integer(1))])), None);
    assert_eq!(measurement_level(&with(vec![(-72, CborValue::Other), status()])), None);
}

#[test]
fn environments_are_told_apart_by_their_instance() {
    let mapping = environment(b"servtd-hash");
    let identity = environment(b"svn-tcb");
    assert!(is_servtd_hash_environment(&mapping) && !is_svn_tcb_environment(&mapping));
    assert!(is_svn_tcb_environment(&identity) && !is_servtd_hash_environment(&identity));
    assert!(env_matches(&environment(b"other"), b"other"));
    assert!(!env_matches(&environment(b"other"), b"othe"));
}
