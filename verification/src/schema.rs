//! The schema codec and the shape validator.
//!
//! A schema is persisted as one reserved byte code per entry (including
//! `Reverse`), order preserved, so a comparator can be reconstructed next to
//! the data it orders. Deserialization fails on any byte outside the
//! reserved table. The validator checks that a decoded value sequence has
//! the shape a schema expects, before the sequence is trusted.

use crate::keys::models;
use crate::keys::shape_ok;
use crate::keys::shape_rest;
use crate::keys::variant_matches;
use crate::keys::DecodeError;
use crate::keys::DecodeType;
use crate::keys::Encode;
use crate::keys::EncodeType;
use vstd::prelude::*;
use vstd::slice::slice_index_get;

verus! {

/// The reserved one-byte code of each descriptor: a fixed table, one code
/// per descriptor variant.
pub open spec fn type_code(t: DecodeType) -> u8 {
    match t {
        DecodeType::DecodeU8 => 0,
        DecodeType::DecodeU16 => 1,
        DecodeType::DecodeU32 => 2,
        DecodeType::DecodeU64 => 3,
        DecodeType::DecodeU128 => 4,
        DecodeType::DecodeString => 5,
        DecodeType::DecodeBool => 6,
        DecodeType::DecodeF32 => 7,
        DecodeType::DecodeF64 => 8,
        DecodeType::Reverse => 9,
        DecodeType::DecodeBytes => 10,
        DecodeType::DecodeI32 => 11,
        DecodeType::DecodeI64 => 12,
    }
}

/// The descriptor a byte code names; `None` outside the reserved table.
pub open spec fn code_type(b: u8) -> Option<DecodeType> {
    if b == 0 {
        Some(DecodeType::DecodeU8)
    } else if b == 1 {
        Some(DecodeType::DecodeU16)
    } else if b == 2 {
        Some(DecodeType::DecodeU32)
    } else if b == 3 {
        Some(DecodeType::DecodeU64)
    } else if b == 4 {
        Some(DecodeType::DecodeU128)
    } else if b == 5 {
        Some(DecodeType::DecodeString)
    } else if b == 6 {
        Some(DecodeType::DecodeBool)
    } else if b == 7 {
        Some(DecodeType::DecodeF32)
    } else if b == 8 {
        Some(DecodeType::DecodeF64)
    } else if b == 9 {
        Some(DecodeType::Reverse)
    } else if b == 10 {
        Some(DecodeType::DecodeBytes)
    } else if b == 11 {
        Some(DecodeType::DecodeI32)
    } else if b == 12 {
        Some(DecodeType::DecodeI64)
    } else {
        None
    }
}

/// The persistent form of a schema: one reserved code per entry, in order.
pub open spec fn spec_serialize_types(ts: Seq<DecodeType>) -> Seq<u8> {
    Seq::new(ts.len(), |i: int| type_code(ts[i]))
}

/// True when every byte is in the reserved code table.
pub open spec fn all_codes_known(bs: Seq<u8>) -> bool {
    forall|k: int| 0 <= k < bs.len() ==> (#[trigger] code_type(bs[k])) is Some
}

/// Maps each schema entry (including `Reverse`) to its reserved byte code:
/// one byte per entry, order preserved.
pub fn serialize_decode_types(the_types: &Vec<DecodeType>) -> (r: Vec<u8>)
    ensures
        r@ == spec_serialize_types(the_types@),
{
    let mut result: Vec<u8> = Vec::new();
    let n = the_types.len();
    let mut i: usize = 0;
    while i < n
        invariant
            n == the_types@.len(),
            i <= n,
            result@.len() == i,
            forall|k: int| 0 <= k < i ==> #[trigger] result@[k] == type_code(the_types@[k]),
        decreases n - i,
    {
        let code: u8 = match the_types[i] {
            DecodeType::DecodeU8 => 0,
            DecodeType::DecodeU16 => 1,
            DecodeType::DecodeU32 => 2,
            DecodeType::DecodeU64 => 3,
            DecodeType::DecodeU128 => 4,
            DecodeType::DecodeString => 5,
            DecodeType::DecodeBool => 6,
            DecodeType::DecodeF32 => 7,
            DecodeType::DecodeF64 => 8,
            DecodeType::Reverse => 9,
            DecodeType::DecodeBytes => 10,
            DecodeType::DecodeI32 => 11,
            DecodeType::DecodeI64 => 12,
        };
        result.push(code);
        i += 1;
    }
    proof {
        assert(result@ =~= spec_serialize_types(the_types@));
    }
    result
}

/// The inverse mapping of [`serialize_decode_types`]: each byte back to its
/// descriptor, in order. Returns the schema exactly when every byte is in
/// the reserved table, and fails with `UnknownTypeCode` on the first byte
/// outside it.
pub fn deserialize_decode_types(the_types: &Vec<u8>) -> (r: Result<Vec<DecodeType>, DecodeError>)
    ensures
        r is Ok <==> all_codes_known(the_types@),
        r matches Ok(ts) ==> ts@.len() == the_types@.len() && forall|k: int|
            0 <= k < ts@.len() ==> Some(#[trigger] ts@[k]) == code_type(the_types@[k]),
        r matches Err(e) ==> e == DecodeError::UnknownTypeCode,
{
    let mut result: Vec<DecodeType> = Vec::new();
    let n = the_types.len();
    let mut i: usize = 0;
    while i < n
        invariant
            n == the_types@.len(),
            i <= n,
            result@.len() == i,
            forall|k: int| 0 <= k < i ==> Some(#[trigger] result@[k]) == code_type(the_types@[k]),
        decreases n - i,
    {
        let b = the_types[i];
        let t: DecodeType = match b {
            0 => DecodeType::DecodeU8,
            1 => DecodeType::DecodeU16,
            2 => DecodeType::DecodeU32,
            3 => DecodeType::DecodeU64,
            4 => DecodeType::DecodeU128,
            5 => DecodeType::DecodeString,
            6 => DecodeType::DecodeBool,
            7 => DecodeType::DecodeF32,
            8 => DecodeType::DecodeF64,
            9 => DecodeType::Reverse,
            10 => DecodeType::DecodeBytes,
            11 => DecodeType::DecodeI32,
            12 => DecodeType::DecodeI64,
            _ => {
                proof {
                    assert(code_type(the_types@[i as int]) is None);
                }
                return Err(DecodeError::UnknownTypeCode);
            },
        };
        result.push(t);
        i += 1;
    }
    proof {
        assert forall|k: int| 0 <= k < n implies (#[trigger] code_type(the_types@[k])) is Some by {
            assert(Some(result@[k]) == code_type(the_types@[k]));
        }
    }
    Ok(result)
}

/// True iff the value sequence matches the schema's shape: after stripping
/// `Reverse` entries the lengths agree, and position by position each
/// value's variant is the one its descriptor expects. Shape only; payload
/// content is never inspected.
pub fn validate_types(decode_types_all: &[DecodeType], encode_types: &[EncodeType]) -> (r: bool)
    ensures
        r == shape_ok(decode_types_all@, models(encode_types@)),
{
    let ghost ts = decode_types_all@;
    let ghost ms = models(encode_types@);
    proof {
        assert(ms.skip(0) =~= ms);
    }
    let n = decode_types_all.len();
    let kn = encode_types.len();
    let mut i: usize = 0;
    let mut j: usize = 0;
    while i < n
        invariant
            ts == decode_types_all@,
            ms == models(encode_types@),
            n == ts.len(),
            kn == ms.len(),
            i <= n,
            j <= kn,
            shape_ok(ts, ms) == shape_rest(ts, i as int, ms.skip(j as int)),
        decreases n - i,
    {
        let t = *slice_index_get(decode_types_all, i);
        if matches!(t, DecodeType::Reverse) {
            i += 1;
            continue ;
        }
        if j >= kn {
            return false;
        }
        proof {
            assert(ms.skip(j as int)[0] == ms[j as int]);
        }
        let v = slice_index_get(encode_types, j);
        if !variant_matches_exec(t, v) {
            return false;
        }
        proof {
            assert(ms.skip(j as int).drop_first() =~= ms.skip(j as int + 1));
        }
        j += 1;
        i += 1;
    }
    j == kn
}

/// True when the descriptor names the value's variant.
fn variant_matches_exec(t: DecodeType, v: &EncodeType) -> (r: bool)
    ensures
        r == variant_matches(t, v.model()),
{
    match (t, v) {
        (DecodeType::DecodeU8, EncodeType::SortU8(_)) => true,
        (DecodeType::DecodeU16, EncodeType::SortU16(_)) => true,
        (DecodeType::DecodeU32, EncodeType::SortU32(_)) => true,
        (DecodeType::DecodeU64, EncodeType::SortU64(_)) => true,
        (DecodeType::DecodeU128, EncodeType::SortU128(_)) => true,
        (DecodeType::DecodeI32, EncodeType::SortI32(_)) => true,
        (DecodeType::DecodeI64, EncodeType::SortI64(_)) => true,
        (DecodeType::DecodeString, EncodeType::SortString(_)) => true,
        (DecodeType::DecodeBytes, EncodeType::SortBytes(_)) => true,
        (DecodeType::DecodeBool, EncodeType::SortBool(_)) => true,
        (DecodeType::DecodeF32, EncodeType::SortF32(_)) => true,
        (DecodeType::DecodeF64, EncodeType::SortF64(_)) => true,
        _ => false,
    }
}

/// Schema codec round-trip: the serialized form of any schema (including
/// one with `Reverse` entries) is all reserved codes, and mapping each code
/// back gives exactly the original schema entry.
pub proof fn lemma_schema_roundtrip(ts: Seq<DecodeType>)
    ensures
        all_codes_known(spec_serialize_types(ts)),
        spec_serialize_types(ts).len() == ts.len(),
        forall|k: int|
            0 <= k < ts.len() ==> code_type(spec_serialize_types(ts)[k]) == Some(#[trigger] ts[k]),
{
    assert forall|k: int|
        0 <= k < ts.len() implies code_type(spec_serialize_types(ts)[k]) == Some(
        #[trigger] ts[k],
    ) by {
        assert(spec_serialize_types(ts)[k] == type_code(ts[k]));
    }
}

} // verus!
