use sortable_keys::decode_byte_array;
use sortable_keys::deserialize_decode_types;
use sortable_keys::encode_keys;
use sortable_keys::serialize_decode_types;
use sortable_keys::validate_types;
use sortable_keys::DecodeError;
use sortable_keys::DecodeType;
use sortable_keys::EncodeType;
use sortable_keys::F32struct;
use sortable_keys::F64struct;

#[test]
fn test_encode_and_decode() {
    let keys = vec![EncodeType::SortU16(1), EncodeType::SortU32(2)];
    let encoded_data = encode_keys(&keys);
    let the_types = vec![DecodeType::DecodeU16, DecodeType::Reverse, DecodeType::DecodeU32];
    let decoded_data = decode_byte_array(&encoded_data, &the_types).unwrap();
    assert_eq!(keys, decoded_data);
}

#[test]
fn test_encode_and_decode_string_and_floats() {
    let keys = vec![
        EncodeType::SortString("hello".to_string()),
        EncodeType::SortF32(F32struct::new(1.0f32.to_bits())),
        EncodeType::SortF64(F64struct::new(2.0f64.to_bits())),
    ];
    let encoded_data = encode_keys(&keys);
    let the_types = vec![DecodeType::DecodeString, DecodeType::DecodeF32, DecodeType::DecodeF64];
    let decoded_data = decode_byte_array(&encoded_data, &the_types).unwrap();
    assert_eq!(keys, decoded_data);
}

#[test]
fn test_encode_and_decode_for_all_types() {
    let keys = vec![
        EncodeType::SortU16(1),
        EncodeType::SortU32(2),
        EncodeType::SortU64(3),
        EncodeType::SortU128(4),
        EncodeType::SortI32(5),
        EncodeType::SortI64(6),
        EncodeType::SortString("hello".to_string()),
        EncodeType::SortBytes(vec![1, 2, 3]),
        EncodeType::SortBool(true),
        EncodeType::SortF32(F32struct::new(1.0f32.to_bits())),
        EncodeType::SortF64(F64struct::new(2.0f64.to_bits())),
    ];
    let encoded_data = encode_keys(&keys);
    let the_types = vec![
        DecodeType::DecodeU16,
        DecodeType::DecodeU32,
        DecodeType::DecodeU64,
        DecodeType::Reverse,
        DecodeType::DecodeU128,
        DecodeType::DecodeI32,
        DecodeType::DecodeI64,
        DecodeType::DecodeString,
        DecodeType::DecodeBytes,
        DecodeType::DecodeBool,
        DecodeType::DecodeF32,
        DecodeType::DecodeF64,
    ];
    let decoded_data = decode_byte_array(&encoded_data, &the_types).unwrap();
    assert_eq!(keys, decoded_data);
}

#[test]
fn test_deserialize_decode_types() {
    let the_types = vec![
        DecodeType::DecodeU16,
        DecodeType::DecodeU32,
        DecodeType::DecodeU64,
        DecodeType::Reverse,
        DecodeType::DecodeU128,
        DecodeType::DecodeI32,
        DecodeType::DecodeI64,
        DecodeType::DecodeString,
        DecodeType::DecodeBytes,
        DecodeType::DecodeBool,
        DecodeType::DecodeF32,
        DecodeType::DecodeF64,
    ];
    let serliazed_types = serialize_decode_types(&the_types);
    let decoded_types = deserialize_decode_types(&serliazed_types).unwrap();
    assert_eq!(the_types, decoded_types);
}

#[test]
fn test_validate_types() {
    let the_types = vec![
        DecodeType::DecodeU16,
        DecodeType::DecodeU32,
        DecodeType::DecodeU64,
        DecodeType::Reverse,
        DecodeType::DecodeU128,
        DecodeType::DecodeI32,
        DecodeType::DecodeI64,
        DecodeType::DecodeString,
        DecodeType::DecodeBytes,
        DecodeType::DecodeBool,
        DecodeType::DecodeF32,
        DecodeType::DecodeF64,
    ];
    let the_keys = vec![
        EncodeType::SortU16(1),
        EncodeType::SortU32(2),
        EncodeType::SortU64(3),
        EncodeType::SortU128(4),
        EncodeType::SortI32(5),
        EncodeType::SortI64(6),
        EncodeType::SortString("hello".to_string()),
        EncodeType::SortBytes(b"hello".to_vec()),
        EncodeType::SortBool(true),
        EncodeType::SortF32(F32struct::new(1.0f32.to_bits())),
        EncodeType::SortF64(F64struct::new(2.0f64.to_bits())),
    ];
    let result = validate_types(&the_types, &the_keys);
    assert!(result);
}

#[test]
fn test_validate_types_fail() {
    let the_types = vec![
        DecodeType::DecodeU32,
        DecodeType::DecodeU32,
        DecodeType::DecodeU64,
        DecodeType::Reverse,
        DecodeType::DecodeU128,
        DecodeType::DecodeI32,
        DecodeType::DecodeI64,
        DecodeType::DecodeString,
        DecodeType::DecodeBytes,
        DecodeType::DecodeBool,
        DecodeType::DecodeF32,
        DecodeType::DecodeF64,
    ];
    let the_keys = vec![
        EncodeType::SortU16(1),
        EncodeType::SortU32(2),
        EncodeType::SortU64(3),
        EncodeType::SortU128(4),
        EncodeType::SortI32(5),
        EncodeType::SortI64(6),
        EncodeType::SortString("hello".to_string()),
        EncodeType::SortBytes(b"hello".to_vec()),
        EncodeType::SortBool(true),
        EncodeType::SortF32(F32struct::new(1.0f32.to_bits())),
        EncodeType::SortF64(F64struct::new(2.0f64.to_bits())),
    ];
    let result = validate_types(&the_types, &the_keys);
    assert!(!result);
}

#[test]
fn test_validate_length_mismatch() {
    let the_types = vec![DecodeType::DecodeU16, DecodeType::DecodeU32];
    let too_few = vec![EncodeType::SortU16(1)];
    assert!(!validate_types(&the_types, &too_few));
    let too_many = vec![
        EncodeType::SortU16(1),
        EncodeType::SortU32(2),
        EncodeType::SortU32(3),
    ];
    assert!(!validate_types(&the_types, &too_many));
}

#[test]
fn test_roundtrip_edge_values() {
    let keys = vec![
        EncodeType::SortU8(0),
        EncodeType::SortU8(u8::MAX),
        EncodeType::SortU16(u16::MAX),
        EncodeType::SortU32(u32::MAX),
        EncodeType::SortU64(u64::MAX),
        EncodeType::SortU128(u128::MAX),
        EncodeType::SortI32(i32::MIN),
        EncodeType::SortI32(-1),
        EncodeType::SortI32(i32::MAX),
        EncodeType::SortI64(i64::MIN),
        EncodeType::SortI64(i64::MAX),
        EncodeType::SortString(String::new()),
        EncodeType::SortBytes(Vec::new()),
        EncodeType::SortBool(false),
        EncodeType::SortF32(F32struct::new(f32::NAN.to_bits())),
        EncodeType::SortF64(F64struct::new(f64::NAN.to_bits())),
        EncodeType::SortF32(F32struct::new((-0.0f32).to_bits())),
    ];
    let the_types = vec![
        DecodeType::DecodeU8,
        DecodeType::DecodeU8,
        DecodeType::DecodeU16,
        DecodeType::DecodeU32,
        DecodeType::DecodeU64,
        DecodeType::DecodeU128,
        DecodeType::DecodeI32,
        DecodeType::DecodeI32,
        DecodeType::DecodeI32,
        DecodeType::DecodeI64,
        DecodeType::DecodeI64,
        DecodeType::DecodeString,
        DecodeType::DecodeBytes,
        DecodeType::DecodeBool,
        DecodeType::DecodeF32,
        DecodeType::DecodeF64,
        DecodeType::DecodeF32,
    ];
    let encoded = encode_keys(&keys);
    let decoded = decode_byte_array(&encoded, &the_types).unwrap();
    assert_eq!(keys, decoded);
}

#[test]
fn test_roundtrip_multibyte_string() {
    let keys = vec![EncodeType::SortString("caf\u{e9} \u{1f600}".to_string())];
    let the_types = vec![DecodeType::DecodeString];
    let encoded = encode_keys(&keys);
    let decoded = decode_byte_array(&encoded, &the_types).unwrap();
    assert_eq!(keys, decoded);
}

#[test]
fn test_encoding_layout() {
    assert_eq!(encode_keys(&[EncodeType::SortU16(0x0102)]), vec![0x01, 0x02]);
    assert_eq!(
        encode_keys(&[EncodeType::SortU32(0x01020304)]),
        vec![0x01, 0x02, 0x03, 0x04]
    );
    assert_eq!(
        encode_keys(&[EncodeType::SortString("ab".to_string())]),
        vec![0, 0, 0, 2, 0x61, 0x62]
    );
    assert_eq!(
        encode_keys(&[EncodeType::SortBytes(vec![9, 8])]),
        vec![0, 0, 0, 2, 9, 8]
    );
    assert_eq!(encode_keys(&[EncodeType::SortBool(true)]), vec![1]);
    assert_eq!(encode_keys(&[EncodeType::SortBool(false)]), vec![0]);
    assert_eq!(
        encode_keys(&[EncodeType::SortI32(-1)]),
        vec![0xff, 0xff, 0xff, 0xff]
    );
    assert_eq!(
        encode_keys(&[EncodeType::SortI32(1)]),
        vec![0x00, 0x00, 0x00, 0x01]
    );
    assert_eq!(
        encode_keys(&[EncodeType::SortF32(F32struct::new(1.0f32.to_bits()))]),
        1.0f32.to_be_bytes().to_vec()
    );
    assert_eq!(
        encode_keys(&[EncodeType::SortF64(F64struct::new((-2.5f64).to_bits()))]),
        (-2.5f64).to_be_bytes().to_vec()
    );
}

#[test]
fn test_decode_truncated() {
    let the_types = vec![DecodeType::DecodeU32];
    let result = decode_byte_array(&[0x01, 0x02, 0x03], &the_types);
    assert_eq!(result, Err(DecodeError::Truncated));

    let string_types = vec![DecodeType::DecodeString];
    let short_payload = vec![0, 0, 0, 5, 0x61];
    let result = decode_byte_array(&short_payload, &string_types);
    assert_eq!(result, Err(DecodeError::Truncated));
}

#[test]
fn test_decode_invalid_text() {
    let the_types = vec![DecodeType::DecodeString];
    let bad_utf8 = vec![0, 0, 0, 2, 0xff, 0xfe];
    let result = decode_byte_array(&bad_utf8, &the_types);
    assert_eq!(result, Err(DecodeError::InvalidText));
}

#[test]
fn test_deserialize_unknown_code() {
    let bytes = vec![0, 1, 13];
    let result = deserialize_decode_types(&bytes);
    assert_eq!(result, Err(DecodeError::UnknownTypeCode));
}

#[test]
fn test_decode_ignores_trailing_bytes() {
    let the_types = vec![DecodeType::DecodeU8];
    let decoded = decode_byte_array(&[7, 0xaa, 0xbb], &the_types).unwrap();
    assert_eq!(decoded, vec![EncodeType::SortU8(7)]);
}

#[test]
fn test_decode_bool_nonstandard_byte() {
    // only 0x01 reads back as true; any other byte reads as false
    let the_types = vec![DecodeType::DecodeBool];
    let decoded = decode_byte_array(&[2], &the_types).unwrap();
    assert_eq!(decoded, vec![EncodeType::SortBool(false)]);
}

#[test]
fn test_schema_roundtrip_all_variants() {
    let the_types = vec![
        DecodeType::DecodeU8,
        DecodeType::DecodeU16,
        DecodeType::DecodeU32,
        DecodeType::DecodeU64,
        DecodeType::DecodeU128,
        DecodeType::DecodeI32,
        DecodeType::DecodeI64,
        DecodeType::DecodeString,
        DecodeType::DecodeBytes,
        DecodeType::DecodeBool,
        DecodeType::DecodeF32,
        DecodeType::DecodeF64,
        DecodeType::Reverse,
    ];
    let serialized = serialize_decode_types(&the_types);
    assert_eq!(serialized.len(), the_types.len());
    let restored = deserialize_decode_types(&serialized).unwrap();
    assert_eq!(the_types, restored);
}
