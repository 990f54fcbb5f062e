use sortable_keys::compare;
use sortable_keys::compare_bytes;
use sortable_keys::encode_keys;
use sortable_keys::DecodeType;
use sortable_keys::EncodeType;
use sortable_keys::F32struct;
use sortable_keys::F64struct;
use std::cmp::Ordering;

#[test]
fn test_compare() {
    let key1 = vec![EncodeType::SortU16(1), EncodeType::SortU32(2)];
    let key2 = vec![EncodeType::SortU16(1), EncodeType::SortU32(3)];
    let the_types = vec![DecodeType::DecodeU16, DecodeType::DecodeU32];
    let result = compare(&the_types, &key1, &key2);
    assert_eq!(result, Ordering::Less);
}

#[test]
fn test_compare_reverse() {
    let key1 = vec![EncodeType::SortU16(1), EncodeType::SortU32(2)];
    let key2 = vec![EncodeType::SortU16(1), EncodeType::SortU32(3)];
    let the_types = vec![DecodeType::DecodeU16, DecodeType::Reverse, DecodeType::DecodeU32];
    let result = compare(&the_types, &key1, &key2);
    assert_eq!(result, Ordering::Greater);
}

#[test]
fn test_compare_string() {
    let key1 = vec![
        EncodeType::SortString("hello".to_string()),
        EncodeType::SortF32(F32struct::new(1.0f32.to_bits())),
        EncodeType::SortF64(F64struct::new(2.0f64.to_bits())),
    ];
    let key2 = vec![
        EncodeType::SortString("hello".to_string()),
        EncodeType::SortF32(F32struct::new(1.0f32.to_bits())),
        EncodeType::SortF64(F64struct::new(3.0f64.to_bits())),
    ];
    let the_types = vec![DecodeType::DecodeString, DecodeType::DecodeF32, DecodeType::DecodeF64];
    let result = compare(&the_types, &key1, &key2);
    assert_eq!(result, Ordering::Less);
}

#[test]
fn test_compare_string_reverse() {
    let key1 = vec![
        EncodeType::SortString("hello".to_string()),
        EncodeType::SortF32(F32struct::new(1.0f32.to_bits())),
        EncodeType::SortF64(F64struct::new(2.0f64.to_bits())),
    ];
    let key2 = vec![
        EncodeType::SortString("hello".to_string()),
        EncodeType::SortF32(F32struct::new(1.0f32.to_bits())),
        EncodeType::SortF64(F64struct::new(3.0f64.to_bits())),
    ];
    let the_types = vec![
        DecodeType::DecodeString,
        DecodeType::DecodeF32,
        DecodeType::Reverse,
        DecodeType::DecodeF64,
    ];
    let result = compare(&the_types, &key1, &key2);
    assert_eq!(result, Ordering::Greater);
}

#[test]
fn test_compare_gives_equal() {
    let key1 = vec![EncodeType::SortU16(1), EncodeType::SortU32(2)];
    let key2 = vec![EncodeType::SortU16(1), EncodeType::SortU32(2)];
    let the_types = vec![DecodeType::DecodeU16, DecodeType::DecodeU32];
    let result = compare(&the_types, &key1, &key2);
    assert_eq!(result, Ordering::Equal);
}

#[test]
fn test_compare_gives_equal_reverse() {
    let key1 = vec![EncodeType::SortU16(1), EncodeType::SortU32(2)];
    let key2 = vec![EncodeType::SortU16(1), EncodeType::SortU32(2)];
    let the_types = vec![DecodeType::DecodeU16, DecodeType::Reverse, DecodeType::DecodeU32];
    let result = compare(&the_types, &key1, &key2);
    assert_eq!(result, Ordering::Equal);
}

#[test]
fn test_compare_bytes_function() {
    let key1 = vec![EncodeType::SortU16(1), EncodeType::SortU32(2)];
    let key2 = vec![EncodeType::SortU16(1), EncodeType::SortU32(3)];
    let the_types = vec![DecodeType::DecodeU16, DecodeType::DecodeU32];
    let encoded_key1 = encode_keys(&key1);
    let encoded_key2 = encode_keys(&key2);
    let result = compare_bytes(&the_types, &encoded_key1, &encoded_key2);
    assert_eq!(result, Ordering::Less);
}

#[test]
fn test_compare_bytes_function_reverse() {
    let key1 = vec![EncodeType::SortU16(1), EncodeType::SortU32(2)];
    let key2 = vec![EncodeType::SortU16(1), EncodeType::SortU32(3)];
    let the_types = vec![DecodeType::DecodeU16, DecodeType::Reverse, DecodeType::DecodeU32];
    let encoded_key1 = encode_keys(&key1);
    let encoded_key2 = encode_keys(&key2);
    let result = compare_bytes(&the_types, &encoded_key1, &encoded_key2);
    assert_eq!(result, Ordering::Greater);
}

// The compound comparator, registered as the key order of a sorted store:
// under schema [String, Reverse, U32] the store would hand back the values in
// string-ascending, then integer-descending order.
#[test]
fn test_compound_comparator() {
    let the_types = vec![DecodeType::DecodeString, DecodeType::Reverse, DecodeType::DecodeU32];
    let key1 = vec![EncodeType::SortString("a".to_string()), EncodeType::SortU32(0)];
    let key2 = vec![EncodeType::SortString("a".to_string()), EncodeType::SortU32(1)];
    let key3 = vec![EncodeType::SortString("b".to_string()), EncodeType::SortU32(0)];
    let encoded_key1 = encode_keys(&key1);
    let encoded_key2 = encode_keys(&key2);
    let encoded_key3 = encode_keys(&key3);

    let mut entries = vec![
        (encoded_key1, "key1"),
        (encoded_key2, "key2"),
        (encoded_key3, "key3"),
    ];
    entries.sort_by(|one, two| compare_bytes(&the_types, &one.0, &two.0));

    let mut result_vec = Vec::new();
    for (_, value) in &entries {
        result_vec.push(value.to_string());
    }
    assert_eq!(result_vec, vec!["key2", "key1", "key3"]);
}

#[test]
fn test_reverse_semantics() {
    let key1 = vec![EncodeType::SortU16(1), EncodeType::SortU32(2)];
    let key2 = vec![EncodeType::SortU16(1), EncodeType::SortU32(3)];
    let plain = vec![DecodeType::DecodeU16, DecodeType::DecodeU32];
    let reversed = vec![DecodeType::DecodeU16, DecodeType::Reverse, DecodeType::DecodeU32];
    assert_eq!(compare(&plain, &key1, &key2), Ordering::Less);
    assert_eq!(compare(&reversed, &key1, &key2), Ordering::Greater);

    let equal1 = vec![EncodeType::SortU16(7), EncodeType::SortU32(9)];
    let equal2 = vec![EncodeType::SortU16(7), EncodeType::SortU32(9)];
    assert_eq!(compare(&reversed, &equal1, &equal2), Ordering::Equal);
}

#[test]
fn test_comparator_consistency() {
    let the_types = vec![DecodeType::DecodeString, DecodeType::Reverse, DecodeType::DecodeU32];
    let a = vec![EncodeType::SortString("a".to_string()), EncodeType::SortU32(5)];
    let b = vec![EncodeType::SortString("a".to_string()), EncodeType::SortU32(3)];
    let c = vec![EncodeType::SortString("b".to_string()), EncodeType::SortU32(9)];

    // antisymmetry: a < b exactly when b > a, across all pairs
    let pairs = [(&a, &b), (&a, &c), (&b, &c), (&a, &a)];
    for (x, y) in pairs {
        let xy = compare(&the_types, x, y);
        let yx = compare(&the_types, y, x);
        assert_eq!(xy, yx.reverse());
    }

    // transitivity: a < b (reverse makes 5 sort before 3? no: 5 > 3, reversed
    // puts a before b), b < c, so a < c
    assert_eq!(compare(&the_types, &a, &b), Ordering::Less);
    assert_eq!(compare(&the_types, &b, &c), Ordering::Less);
    assert_eq!(compare(&the_types, &a, &c), Ordering::Less);
}

#[test]
fn test_float_nan_ordering() {
    let the_types = vec![DecodeType::DecodeF32];
    let nan1 = vec![EncodeType::SortF32(F32struct::new(f32::NAN.to_bits()))];
    let nan2 = vec![EncodeType::SortF32(F32struct::new((-f32::NAN).to_bits()))];
    let small = vec![EncodeType::SortF32(F32struct::new(f32::MIN.to_bits()))];
    let zero = vec![EncodeType::SortF32(F32struct::new(0.0f32.to_bits()))];
    assert_eq!(compare(&the_types, &nan1, &nan2), Ordering::Equal);
    assert_eq!(compare(&the_types, &nan1, &small), Ordering::Less);
    assert_eq!(compare(&the_types, &zero, &nan1), Ordering::Greater);

    let f64_types = vec![DecodeType::DecodeF64];
    let dnan = vec![EncodeType::SortF64(F64struct::new(f64::NAN.to_bits()))];
    let dmin = vec![EncodeType::SortF64(F64struct::new(f64::MIN.to_bits()))];
    assert_eq!(compare(&f64_types, &dnan, &dnan), Ordering::Equal);
    assert_eq!(compare(&f64_types, &dnan, &dmin), Ordering::Less);
}

#[test]
fn test_float_numeric_ordering() {
    let the_types = vec![DecodeType::DecodeF64];
    let neg = vec![EncodeType::SortF64(F64struct::new((-1.5f64).to_bits()))];
    let neg_zero = vec![EncodeType::SortF64(F64struct::new((-0.0f64).to_bits()))];
    let pos_zero = vec![EncodeType::SortF64(F64struct::new(0.0f64.to_bits()))];
    let pos = vec![EncodeType::SortF64(F64struct::new(2.25f64.to_bits()))];
    assert_eq!(compare(&the_types, &neg, &pos), Ordering::Less);
    assert_eq!(compare(&the_types, &neg, &neg_zero), Ordering::Less);
    assert_eq!(compare(&the_types, &neg_zero, &pos_zero), Ordering::Equal);
    assert_eq!(compare(&the_types, &pos_zero, &pos), Ordering::Less);
}

#[test]
fn test_signed_ordering() {
    // raw two's-complement bytes would sort -1 after 1; the comparator must not
    let the_types = vec![DecodeType::DecodeI32];
    let neg = vec![EncodeType::SortI32(-1)];
    let pos = vec![EncodeType::SortI32(1)];
    let e_neg = encode_keys(&neg);
    let e_pos = encode_keys(&pos);
    assert!(e_neg > e_pos);
    assert_eq!(compare_bytes(&the_types, &e_neg, &e_pos), Ordering::Less);

    let i64_types = vec![DecodeType::DecodeI64];
    let lo = vec![EncodeType::SortI64(i64::MIN)];
    let hi = vec![EncodeType::SortI64(i64::MAX)];
    assert_eq!(
        compare_bytes(&i64_types, &encode_keys(&lo), &encode_keys(&hi)),
        Ordering::Less
    );
}

#[test]
fn test_byte_level_equivalence() {
    let the_types = vec![
        DecodeType::DecodeString,
        DecodeType::Reverse,
        DecodeType::DecodeI32,
        DecodeType::DecodeBool,
    ];
    let seqs = [
        vec![
            EncodeType::SortString("x".to_string()),
            EncodeType::SortI32(-5),
            EncodeType::SortBool(false),
        ],
        vec![
            EncodeType::SortString("x".to_string()),
            EncodeType::SortI32(3),
            EncodeType::SortBool(true),
        ],
        vec![
            EncodeType::SortString("y".to_string()),
            EncodeType::SortI32(-5),
            EncodeType::SortBool(false),
        ],
    ];
    for s1 in &seqs {
        for s2 in &seqs {
            let by_values = compare(&the_types, s1, s2);
            let by_bytes = compare_bytes(&the_types, &encode_keys(s1), &encode_keys(s2));
            assert_eq!(by_bytes, by_values);
        }
    }
}

#[test]
fn test_compare_bytes_and_strings() {
    let the_types = vec![DecodeType::DecodeBytes];
    let short = vec![EncodeType::SortBytes(vec![1, 2])];
    let longer = vec![EncodeType::SortBytes(vec![1, 2, 0])];
    let bigger = vec![EncodeType::SortBytes(vec![2])];
    assert_eq!(compare(&the_types, &short, &longer), Ordering::Less);
    assert_eq!(compare(&the_types, &longer, &bigger), Ordering::Less);
    assert_eq!(compare(&the_types, &short, &short), Ordering::Equal);

    let string_types = vec![DecodeType::DecodeString];
    let ab = vec![EncodeType::SortString("ab".to_string())];
    let abc = vec![EncodeType::SortString("abc".to_string())];
    assert_eq!(compare(&string_types, &ab, &abc), Ordering::Less);
}
