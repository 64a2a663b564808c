//! Tests of the binary codec and the payload schema on constructed
//! values: exact wire forms, grammar rejections, and field validation.

use nsm_attest::decode::{decode, decode_at, value_eq};
use nsm_attest::encode::encode;
use nsm_attest::payload::{
    encode_payload, decode_payload, payload_from_value, payload_to_value, AttestationPayload,
    DigestAlg,
};
use nsm_attest::value::Value;
use nsm_attest::{FieldId, VerificationFailure};

fn text(s: &str) -> Value {
    Value::Text(s.as_bytes().to_vec())
}

fn base_fields() -> Vec<(Value, Value)> {
    vec![
        (text("module_id"), text("i-0")),
        (text("digest"), text("SHA256")),
        (text("timestamp"), Value::Uint(1_700_000_000_000)),
        (
            text("pcrs"),
            Value::Mapping(vec![(Value::Uint(0), Value::Bytes(vec![0u8; 32]))]),
        ),
        (text("certificate"), Value::Bytes(vec![1, 2, 3])),
        (text("cabundle"), Value::Array(vec![Value::Bytes(vec![4, 5])])),
    ]
}

fn with_field(mut fields: Vec<(Value, Value)>, key: &str, v: Value) -> Value {
    fields.retain(|(k, _)| *k != text(key));
    fields.push((text(key), v));
    Value::Mapping(fields)
}

#[test]
fn uint_wire_forms() {
    assert_eq!(encode(&Value::Uint(0)), vec![0x00]);
    assert_eq!(encode(&Value::Uint(23)), vec![0x17]);
    assert_eq!(encode(&Value::Uint(24)), vec![0x18, 24]);
    assert_eq!(encode(&Value::Uint(255)), vec![0x18, 255]);
    assert_eq!(encode(&Value::Uint(256)), vec![0x19, 1, 0]);
    assert_eq!(encode(&Value::Uint(65536)), vec![0x1A, 0, 1, 0, 0]);
    assert_eq!(
        encode(&Value::Uint(1_634_504_863_212)),
        vec![0x1B, 0, 0, 1, 124, 144, 20, 237, 236]
    );
    assert_eq!(encode(&Value::Nint(34)), vec![0x38, 34]);
    assert_eq!(encode(&Value::Bool(false)), vec![0xF4]);
    assert_eq!(encode(&Value::Bool(true)), vec![0xF5]);
    assert_eq!(encode(&Value::Null), vec![0xF6]);
}

#[test]
fn nested_round_trip() {
    let v = Value::Mapping(vec![
        (Value::Uint(1), Value::Array(vec![Value::Bytes(vec![9, 8]), Value::Null])),
        (text("k"), Value::Nint(41)),
        (Value::Bool(true), Value::Uint(300)),
    ]);
    let bytes = encode(&v);
    let back = decode(&bytes).unwrap();
    assert!(value_eq(&v, &back));
    assert_eq!(v, back);
}

#[test]
fn decoder_rejects_bad_grammar() {
    assert_eq!(
        decode(&vec![0x18]),
        Err(VerificationFailure::MalformedEncoding { offset: 0 })
    );
    assert_eq!(
        decode(&vec![0x5F]),
        Err(VerificationFailure::MalformedEncoding { offset: 0 })
    );
    assert_eq!(
        decode(&vec![0xC0, 0x00]),
        Err(VerificationFailure::MalformedEncoding { offset: 0 })
    );
    assert_eq!(
        decode(&vec![0x00, 0x00]),
        Err(VerificationFailure::MalformedEncoding { offset: 1 })
    );
    assert_eq!(
        decode(&vec![0x41]),
        Err(VerificationFailure::MalformedEncoding { offset: 0 })
    );
    assert_eq!(decode(&Vec::new()), Err(VerificationFailure::MalformedEncoding { offset: 0 }));
}

#[test]
fn duplicate_map_key_rejected() {
    assert_eq!(
        decode(&vec![0xA2, 0x01, 0x02, 0x01, 0x03]),
        Err(VerificationFailure::DuplicateKey { offset: 3 })
    );
}

#[test]
fn decode_at_reports_consumed_position() {
    let bytes = vec![0x82, 0x01, 0x02, 0xFF];
    let (v, end) = decode_at(&bytes, 0).unwrap();
    assert_eq!(v, Value::Array(vec![Value::Uint(1), Value::Uint(2)]));
    assert_eq!(end, 3);
}

#[test]
fn synthetic_payload_round_trip() {
    let p = AttestationPayload {
        module_id: b"i-abc".to_vec(),
        digest: DigestAlg::Sha256,
        timestamp: 1,
        pcrs: vec![(0, vec![7u8; 32]), (3, vec![9u8; 32]), (31, vec![0u8; 32])],
        certificate: vec![1],
        cabundle: Vec::new(),
        public_key: Some(vec![2, 3]),
        user_data: None,
        nonce: Some(Vec::new()),
    };
    let p2 = decode_payload(&encode_payload(&p)).unwrap();
    assert_eq!(p, p2);
}

#[test]
fn payload_value_round_trip() {
    let p = AttestationPayload {
        module_id: b"m".to_vec(),
        digest: DigestAlg::Sha512,
        timestamp: 42,
        pcrs: vec![(1, vec![1u8; 64])],
        certificate: vec![0xFF],
        cabundle: vec![vec![1], vec![2]],
        public_key: None,
        user_data: Some(b"ud".to_vec()),
        nonce: None,
    };
    let v = payload_to_value(&p);
    assert_eq!(payload_from_value(&v).unwrap(), p);
}

#[test]
fn short_pcr_digest_rejected() {
    let v = with_field(
        base_fields(),
        "pcrs",
        Value::Mapping(vec![(Value::Uint(0), Value::Bytes(vec![0u8; 31]))]),
    );
    assert_eq!(
        payload_from_value(&v),
        Err(VerificationFailure::InvalidPcrEntry { index: 0 })
    );
}

#[test]
fn pcr_index_32_rejected() {
    let v = with_field(
        base_fields(),
        "pcrs",
        Value::Mapping(vec![(Value::Uint(32), Value::Bytes(vec![0u8; 32]))]),
    );
    assert_eq!(
        payload_from_value(&v),
        Err(VerificationFailure::InvalidPcrEntry { index: 32 })
    );
}

#[test]
fn missing_module_id_rejected() {
    let mut fields = base_fields();
    fields.remove(0);
    assert_eq!(
        payload_from_value(&Value::Mapping(fields)),
        Err(VerificationFailure::MissingField { field: FieldId::ModuleId })
    );
}

#[test]
fn empty_module_id_rejected() {
    let v = with_field(base_fields(), "module_id", text(""));
    match payload_from_value(&v) {
        Err(VerificationFailure::MissingField { field: FieldId::ModuleId }) => {}
        other => panic!("unexpected result: {:?}", other),
    }
}

#[test]
fn unknown_digest_rejected() {
    let v = with_field(base_fields(), "digest", text("SHA1"));
    assert_eq!(
        payload_from_value(&v),
        Err(VerificationFailure::UnsupportedDigestAlgorithm)
    );
}

#[test]
fn textual_timestamp_rejected() {
    let v = with_field(base_fields(), "timestamp", text("now"));
    assert_eq!(
        payload_from_value(&v),
        Err(VerificationFailure::InvalidField { field: FieldId::Timestamp })
    );
}

#[test]
fn zero_timestamp_rejected() {
    let v = with_field(base_fields(), "timestamp", Value::Uint(0));
    assert_eq!(
        payload_from_value(&v),
        Err(VerificationFailure::InvalidField { field: FieldId::Timestamp })
    );
}

#[test]
fn null_optional_equals_omitted() {
    let with_null = with_field(base_fields(), "user_data", Value::Null);
    let without = Value::Mapping(base_fields());
    let a = payload_from_value(&with_null).unwrap();
    let b = payload_from_value(&without).unwrap();
    assert_eq!(a.user_data, None);
    assert_eq!(a, b);
}

#[test]
fn unknown_keys_ignored() {
    let v = with_field(base_fields(), "future_extension", Value::Bool(true));
    assert!(payload_from_value(&v).is_ok());
}

#[test]
fn non_mapping_payload_rejected() {
    assert_eq!(
        payload_from_value(&Value::Uint(1)),
        Err(VerificationFailure::InvalidField { field: FieldId::Document })
    );
}
