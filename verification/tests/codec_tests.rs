use bxes::errors::BxesReadError;
use bxes::models::{
    BrafLifecycle, BxesEvent, BxesEventLog, BxesTraceVariant, BxesValue, Lifecycle,
    StandardLifecycle,
};
use bxes::reader::decode_bxes;
use bxes::type_ids::{get_type_id_byte, TypeIds};
use bxes::writer::encode_bxes;

fn string_value(text: &str) -> BxesValue {
    BxesValue::String(text.to_string())
}

fn event(name: &str, lifecycle: Lifecycle, attrs: Option<Vec<(BxesValue, BxesValue)>>) -> BxesEvent {
    BxesEvent { name: string_value(name), timestamp: 0, lifecycle, attributes: attrs }
}

#[test]
fn empty_log_bytes() {
    let log = BxesEventLog { version: 0, metadata: None, variants: vec![] };
    let bytes = encode_bxes(&log);
    assert_eq!(bytes, vec![0u8; 20]);
    let decoded = decode_bxes(&bytes).unwrap();
    assert!(decoded == log);
    assert_eq!(decoded.version, 0);
    assert!(decoded.metadata.is_none());
    assert!(decoded.variants.is_empty());
}

#[test]
fn single_event_no_attributes_bytes() {
    let log = BxesEventLog {
        version: 1,
        metadata: None,
        variants: vec![BxesTraceVariant {
            traces_count: 3,
            events: vec![BxesEvent {
                name: string_value("a"),
                timestamp: 0,
                lifecycle: Lifecycle::Standard(StandardLifecycle::Complete),
                attributes: None,
            }],
        }],
    };
    let bytes = encode_bxes(&log);
    let mut expected: Vec<u8> = Vec::new();
    expected.extend_from_slice(&1u32.to_le_bytes());
    // values section: two entries, the name then the lifecycle value
    expected.extend_from_slice(&2u32.to_le_bytes());
    expected.push(6);
    expected.extend_from_slice(&1u64.to_le_bytes());
    expected.push(b'a');
    expected.push(10);
    expected.push(4);
    // pairs and metadata sections are empty
    expected.extend_from_slice(&0u32.to_le_bytes());
    expected.extend_from_slice(&0u32.to_le_bytes());
    // one variant: multiplicity 3, one event
    expected.extend_from_slice(&1u32.to_le_bytes());
    expected.extend_from_slice(&3u32.to_le_bytes());
    expected.extend_from_slice(&1u32.to_le_bytes());
    // the event: name index 0, timestamp, inline lifecycle, no attributes
    expected.extend_from_slice(&0u32.to_le_bytes());
    expected.extend_from_slice(&0i64.to_le_bytes());
    expected.push(10);
    expected.push(4);
    expected.extend_from_slice(&0u32.to_le_bytes());
    assert_eq!(bytes, expected);
    let decoded = decode_bxes(&bytes).unwrap();
    assert!(decoded == log);
}

#[test]
fn duplicate_attribute_collapses_to_one_pair() {
    let attrs = || Some(vec![(string_value("k"), string_value("v"))]);
    let log = BxesEventLog {
        version: 0,
        metadata: None,
        variants: vec![BxesTraceVariant {
            traces_count: 1,
            events: vec![
                event("e", Lifecycle::Standard(StandardLifecycle::Unspecified), attrs()),
                event("e", Lifecycle::Standard(StandardLifecycle::Unspecified), attrs()),
            ],
        }],
    };
    let bytes = encode_bxes(&log);
    // values: "e", the lifecycle value, "k", "v" -> list is 10 + 2 + 10 + 10 bytes;
    // the shared name and the shared pair are interned once each
    assert_eq!(&bytes[4..8], &4u32.to_le_bytes());
    let ctx = bxes::write_context::BxesWriteContext::new(&log);
    assert_eq!(ctx.values_indices.len(), 4);
    assert_eq!(ctx.kv_indices.len(), 1);
    assert_eq!(&bytes[40..44], &1u32.to_le_bytes());
    // the single pair references value indices 2 and 3
    assert_eq!(&bytes[44..48], &2u32.to_le_bytes());
    assert_eq!(&bytes[48..52], &3u32.to_le_bytes());
    // both events carry one attribute reference, both to pair index 0
    assert_eq!(&bytes[86..90], &0u32.to_le_bytes());
    assert_eq!(&bytes[108..112], &0u32.to_le_bytes());
    assert_eq!(bytes.len(), 112);
    let decoded = decode_bxes(&bytes).unwrap();
    assert!(decoded == log);
}

#[test]
fn round_trip_every_value_variant() {
    let attrs: Vec<(BxesValue, BxesValue)> = vec![
        (string_value("k0"), BxesValue::Int32(-5)),
        (string_value("k1"), BxesValue::Int64(-1234567890123)),
        (string_value("k2"), BxesValue::Uint32(4000000000)),
        (string_value("k3"), BxesValue::Uint64(18000000000000000000)),
        (string_value("k4"), BxesValue::Float32(1.5f32.to_bits())),
        (string_value("k5"), BxesValue::Float64((-2.25f64).to_bits())),
        (string_value("k6"), string_value("v\u{00e9}\u{4e16}\u{1f600}")),
        (string_value("k7"), BxesValue::Bool(true)),
        (string_value("k8"), BxesValue::Timestamp(-1)),
        (string_value("k9"), BxesValue::BrafLifecycle(BrafLifecycle::Completed)),
        (string_value("k10"), BxesValue::StandardLifecycle(StandardLifecycle::Start)),
    ];
    let log = BxesEventLog {
        version: 7,
        metadata: Some(vec![(string_value("origin"), BxesValue::Bool(false))]),
        variants: vec![BxesTraceVariant {
            traces_count: 2,
            events: vec![event(
                "work",
                Lifecycle::Braf(BrafLifecycle::OpenRunning),
                Some(attrs),
            )],
        }],
    };
    let bytes = encode_bxes(&log);
    let decoded = decode_bxes(&bytes).unwrap();
    assert!(decoded == log);
}

#[test]
fn encoding_is_deterministic() {
    let log = BxesEventLog {
        version: 3,
        metadata: Some(vec![(string_value("m"), BxesValue::Uint32(9))]),
        variants: vec![BxesTraceVariant {
            traces_count: 1,
            events: vec![event(
                "x",
                Lifecycle::Standard(StandardLifecycle::Start),
                Some(vec![(string_value("a"), BxesValue::Int32(1))]),
            )],
        }],
    };
    let first = encode_bxes(&log);
    let second = encode_bxes(&log);
    assert_eq!(first, second);
    // a structurally equal log built anew encodes to the same bytes
    let rebuilt = BxesEventLog {
        version: 3,
        metadata: Some(vec![(string_value("m"), BxesValue::Uint32(9))]),
        variants: vec![BxesTraceVariant {
            traces_count: 1,
            events: vec![event(
                "x",
                Lifecycle::Standard(StandardLifecycle::Start),
                Some(vec![(string_value("a"), BxesValue::Int32(1))]),
            )],
        }],
    };
    assert!(log == rebuilt);
    assert_eq!(first, encode_bxes(&rebuilt));
}

#[test]
fn attribute_order_is_semantic() {
    let build = |swap: bool| {
        let mut attrs = vec![
            (string_value("a"), BxesValue::Int32(1)),
            (string_value("b"), BxesValue::Int32(2)),
        ];
        if swap {
            attrs.reverse();
        }
        BxesEventLog {
            version: 0,
            metadata: None,
            variants: vec![BxesTraceVariant {
                traces_count: 1,
                events: vec![event(
                    "e",
                    Lifecycle::Standard(StandardLifecycle::Complete),
                    Some(attrs),
                )],
            }],
        }
    };
    let one = decode_bxes(&encode_bxes(&build(false))).unwrap();
    let two = decode_bxes(&encode_bxes(&build(true))).unwrap();
    assert!(!(one == two));
}

#[test]
fn empty_attribute_list_normalises_to_absent() {
    let log = BxesEventLog {
        version: 0,
        metadata: Some(vec![]),
        variants: vec![BxesTraceVariant {
            traces_count: 1,
            events: vec![event(
                "e",
                Lifecycle::Standard(StandardLifecycle::Complete),
                Some(vec![]),
            )],
        }],
    };
    let decoded = decode_bxes(&encode_bxes(&log)).unwrap();
    assert!(decoded.metadata.is_none());
    assert!(decoded.variants[0].events[0].attributes.is_none());
}

#[test]
fn extreme_lifecycle_ordinals_round_trip() {
    let log = BxesEventLog {
        version: 0,
        metadata: None,
        variants: vec![BxesTraceVariant {
            traces_count: 1,
            events: vec![
                event("b", Lifecycle::Braf(BrafLifecycle::OpenRunningSuspended), None),
                event("s", Lifecycle::Standard(StandardLifecycle::Withdraw), None),
            ],
        }],
    };
    let bytes = encode_bxes(&log);
    // the inline lifecycles carry ordinals 19 and 13
    let first_event_lifecycle = 4 + 4 + (10 + 2 + 10 + 2) + 4 + 4 + 4 + 4 + 4 + 4 + 8;
    assert_eq!(bytes[first_event_lifecycle], 9);
    assert_eq!(bytes[first_event_lifecycle + 1], 19);
    let decoded = decode_bxes(&bytes).unwrap();
    assert!(decoded == log);
    assert!(matches!(
        decoded.variants[0].events[0].lifecycle,
        Lifecycle::Braf(BrafLifecycle::OpenRunningSuspended)
    ));
    assert!(matches!(
        decoded.variants[0].events[1].lifecycle,
        Lifecycle::Standard(StandardLifecycle::Withdraw)
    ));
}

#[test]
fn braf_ordinal_out_of_range_is_rejected() {
    let mut bytes: Vec<u8> = Vec::new();
    bytes.extend_from_slice(&0u32.to_le_bytes());
    bytes.extend_from_slice(&1u32.to_le_bytes());
    bytes.push(9);
    bytes.push(20);
    bytes.extend_from_slice(&0u32.to_le_bytes());
    bytes.extend_from_slice(&0u32.to_le_bytes());
    bytes.extend_from_slice(&0u32.to_le_bytes());
    assert!(matches!(
        decode_bxes(&bytes),
        Err(BxesReadError::LifecycleOfEventOutOfRange)
    ));
}

#[test]
fn unknown_type_tag_is_rejected() {
    for tag in [11u8, 12, 13, 14, 99] {
        let mut bytes: Vec<u8> = Vec::new();
        bytes.extend_from_slice(&0u32.to_le_bytes());
        bytes.extend_from_slice(&1u32.to_le_bytes());
        bytes.push(tag);
        match decode_bxes(&bytes) {
            Err(BxesReadError::FailedToParseTypeId(t)) => assert_eq!(t, tag),
            other => panic!("expected a type tag failure, got {:?}", other),
        }
    }
}

#[test]
fn value_index_out_of_range_is_rejected() {
    let mut bytes: Vec<u8> = Vec::new();
    bytes.extend_from_slice(&0u32.to_le_bytes());
    bytes.extend_from_slice(&0u32.to_le_bytes());
    bytes.extend_from_slice(&0u32.to_le_bytes());
    bytes.extend_from_slice(&0u32.to_le_bytes());
    bytes.extend_from_slice(&1u32.to_le_bytes());
    bytes.extend_from_slice(&1u32.to_le_bytes());
    bytes.extend_from_slice(&1u32.to_le_bytes());
    bytes.extend_from_slice(&5u32.to_le_bytes());
    assert!(matches!(
        decode_bxes(&bytes),
        Err(BxesReadError::FailedToIndexValue(5))
    ));
}

#[test]
fn non_string_event_name_is_rejected() {
    let mut bytes: Vec<u8> = Vec::new();
    bytes.extend_from_slice(&0u32.to_le_bytes());
    bytes.extend_from_slice(&1u32.to_le_bytes());
    bytes.push(0);
    bytes.extend_from_slice(&7i32.to_le_bytes());
    bytes.extend_from_slice(&0u32.to_le_bytes());
    bytes.extend_from_slice(&0u32.to_le_bytes());
    bytes.extend_from_slice(&1u32.to_le_bytes());
    bytes.extend_from_slice(&1u32.to_le_bytes());
    bytes.extend_from_slice(&1u32.to_le_bytes());
    bytes.extend_from_slice(&0u32.to_le_bytes());
    assert!(matches!(
        decode_bxes(&bytes),
        Err(BxesReadError::NameOfEventIsNotAString)
    ));
}

#[test]
fn pair_index_out_of_range_is_rejected() {
    let mut bytes: Vec<u8> = Vec::new();
    bytes.extend_from_slice(&0u32.to_le_bytes());
    bytes.extend_from_slice(&0u32.to_le_bytes());
    bytes.extend_from_slice(&0u32.to_le_bytes());
    bytes.extend_from_slice(&1u32.to_le_bytes());
    bytes.extend_from_slice(&0u32.to_le_bytes());
    assert!(matches!(
        decode_bxes(&bytes),
        Err(BxesReadError::FailedToIndexKeyValue(0))
    ));
}

#[test]
fn non_string_attribute_key_is_rejected() {
    let mut bytes: Vec<u8> = Vec::new();
    bytes.extend_from_slice(&0u32.to_le_bytes());
    bytes.extend_from_slice(&2u32.to_le_bytes());
    bytes.push(0);
    bytes.extend_from_slice(&7i32.to_le_bytes());
    bytes.push(0);
    bytes.extend_from_slice(&8i32.to_le_bytes());
    bytes.extend_from_slice(&1u32.to_le_bytes());
    bytes.extend_from_slice(&0u32.to_le_bytes());
    bytes.extend_from_slice(&1u32.to_le_bytes());
    bytes.extend_from_slice(&1u32.to_le_bytes());
    bytes.extend_from_slice(&0u32.to_le_bytes());
    assert!(matches!(
        decode_bxes(&bytes),
        Err(BxesReadError::EventAttributeKeyIsNotAString)
    ));
}

#[test]
fn invalid_utf8_in_string_is_rejected() {
    let mut bytes: Vec<u8> = Vec::new();
    bytes.extend_from_slice(&0u32.to_le_bytes());
    bytes.extend_from_slice(&1u32.to_le_bytes());
    bytes.push(6);
    bytes.extend_from_slice(&1u64.to_le_bytes());
    bytes.push(0xFF);
    assert!(matches!(
        decode_bxes(&bytes),
        Err(BxesReadError::FailedToCreateUtf8String(_))
    ));
}

#[test]
fn truncated_input_reports_read_failure_with_offset() {
    let bytes: Vec<u8> = vec![1, 2];
    match decode_bxes(&bytes) {
        Err(BxesReadError::FailedToReadValue(e)) => assert_eq!(e.offset, 0),
        other => panic!("expected a primitive read failure, got {:?}", other),
    }
}

#[test]
fn type_id_table_is_stable() {
    assert_eq!(get_type_id_byte(TypeIds::I32), 0);
    assert_eq!(get_type_id_byte(TypeIds::I64), 1);
    assert_eq!(get_type_id_byte(TypeIds::U32), 2);
    assert_eq!(get_type_id_byte(TypeIds::U64), 3);
    assert_eq!(get_type_id_byte(TypeIds::F32), 4);
    assert_eq!(get_type_id_byte(TypeIds::F64), 5);
    assert_eq!(get_type_id_byte(TypeIds::String), 6);
    assert_eq!(get_type_id_byte(TypeIds::Bool), 7);
    assert_eq!(get_type_id_byte(TypeIds::Timestamp), 8);
    assert_eq!(get_type_id_byte(TypeIds::BrafLifecycle), 9);
    assert_eq!(get_type_id_byte(TypeIds::StandardLifecycle), 10);
    assert_eq!(get_type_id_byte(TypeIds::Artifact), 11);
    assert_eq!(get_type_id_byte(TypeIds::Drivers), 12);
    assert_eq!(get_type_id_byte(TypeIds::Guid), 13);
    assert_eq!(get_type_id_byte(TypeIds::SoftwareEventType), 14);
}

#[test]
fn float_values_compare_bitwise() {
    let nan_a = BxesValue::Float64(f64::NAN.to_bits());
    let nan_b = BxesValue::Float64(f64::NAN.to_bits());
    assert!(nan_a == nan_b);
    let log = BxesEventLog {
        version: 0,
        metadata: Some(vec![(string_value("x"), nan_a)]),
        variants: vec![],
    };
    let decoded = decode_bxes(&encode_bxes(&log)).unwrap();
    assert!(decoded == log);
}

#[test]
fn non_lifecycle_tag_in_event_lifecycle_is_rejected() {
    // a log whose single event carries an Int32 value where its lifecycle
    // belongs
    let mut bytes: Vec<u8> = Vec::new();
    bytes.extend_from_slice(&0u32.to_le_bytes());
    // values: just the event name
    bytes.extend_from_slice(&1u32.to_le_bytes());
    bytes.push(6);
    bytes.extend_from_slice(&1u64.to_le_bytes());
    bytes.push(b'a');
    // no pairs, no metadata, one variant with one event
    bytes.extend_from_slice(&0u32.to_le_bytes());
    bytes.extend_from_slice(&0u32.to_le_bytes());
    bytes.extend_from_slice(&1u32.to_le_bytes());
    bytes.extend_from_slice(&1u32.to_le_bytes());
    bytes.extend_from_slice(&1u32.to_le_bytes());
    bytes.extend_from_slice(&0u32.to_le_bytes());
    bytes.extend_from_slice(&0i64.to_le_bytes());
    bytes.push(0);
    bytes.extend_from_slice(&7i32.to_le_bytes());
    bytes.extend_from_slice(&0u32.to_le_bytes());
    assert!(matches!(
        decode_bxes(&bytes),
        Err(BxesReadError::LifecycleOfEventOutOfRange)
    ));
}

#[test]
fn standard_ordinal_out_of_range_in_event_is_rejected() {
    let mut bytes: Vec<u8> = Vec::new();
    bytes.extend_from_slice(&0u32.to_le_bytes());
    bytes.extend_from_slice(&1u32.to_le_bytes());
    bytes.push(6);
    bytes.extend_from_slice(&1u64.to_le_bytes());
    bytes.push(b'a');
    bytes.extend_from_slice(&0u32.to_le_bytes());
    bytes.extend_from_slice(&0u32.to_le_bytes());
    bytes.extend_from_slice(&1u32.to_le_bytes());
    bytes.extend_from_slice(&1u32.to_le_bytes());
    bytes.extend_from_slice(&1u32.to_le_bytes());
    bytes.extend_from_slice(&0u32.to_le_bytes());
    bytes.extend_from_slice(&0i64.to_le_bytes());
    bytes.push(10);
    bytes.push(14);
    bytes.extend_from_slice(&0u32.to_le_bytes());
    assert!(matches!(
        decode_bxes(&bytes),
        Err(BxesReadError::LifecycleOfEventOutOfRange)
    ));
}
