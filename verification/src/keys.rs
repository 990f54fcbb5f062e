//! The value model and the compound-key codec.
//!
//! A compound key is an ordered sequence of typed field values. Each field is
//! encoded by the per-type rules of the wire table (fixed-width big-endian
//! integers and float bits, a one-byte boolean, and length-prefixed strings
//! and byte sequences), and a compound key is the plain concatenation of its
//! fields' encodings: no separators and no total-length prefix, since field
//! boundaries are self-describing.
//!
//! Decoding is driven by a schema, an ordered sequence of type descriptors.
//! A `Reverse` descriptor is a positional modifier for the comparator; it
//! consumes no bytes and produces no field during decoding.

use crate::float_order::F32struct;
use crate::float_order::F64struct;
use crate::wire::be_bytes;
use crate::wire::be_value;
use crate::wire::be_decode;
use crate::wire::be_encode;
use crate::wire::lemma_be_bytes_len;
use crate::wire::lemma_be_value_bound;
use crate::wire::lemma_be_value_of_be_bytes;
use crate::wire::lemma_pow256_values;
use crate::wire::pow256;
use vstd::prelude::*;
use vstd::slice::slice_subrange;
use vstd::slice::slice_to_vec;
use vstd::slice::slice_index_get;
use vstd::string::StrSliceExecFns;
use vstd::utf8::decode_utf8;
use vstd::utf8::encode_utf8;
use vstd::utf8::encode_utf8_decode_utf8;
use vstd::utf8::encode_utf8_valid_utf8;
use vstd::utf8::valid_utf8;

verus! {

/// A typed field value of a compound key. The variant set is closed; two
/// fields are comparable only when they are the same variant.
#[derive(Debug, Clone, PartialEq)]
pub enum EncodeType {
    SortU8(u8),
    SortU16(u16),
    SortU32(u32),
    SortU64(u64),
    SortU128(u128),
    SortI32(i32),
    SortI64(i64),
    SortString(String),
    SortBytes(Vec<u8>),
    SortBool(bool),
    SortF32(F32struct),
    SortF64(F64struct),
}

/// A type descriptor: one per decodable field type, plus the `Reverse`
/// marker, which carries no payload, consumes no bytes during decoding, and
/// inverts the comparator's direction for the next non-`Reverse` field.
#[derive(Debug, Clone, Copy, PartialEq, Eq, Structural)]
pub enum DecodeType {
    DecodeU8,
    DecodeU16,
    DecodeU32,
    DecodeU64,
    DecodeU128,
    DecodeI32,
    DecodeI64,
    DecodeString,
    DecodeBytes,
    DecodeBool,
    DecodeF32,
    DecodeF64,
    Reverse,
}

/// Why a decoding operation failed. Every failure is surfaced to the caller
/// of the operation that hit it; nothing is retried or patched over.
#[derive(Debug, Clone, Copy, PartialEq, Eq, Structural)]
pub enum DecodeError {
    /// A decode needed more bytes than remain in the buffer.
    Truncated,
    /// A string payload is not valid UTF-8.
    InvalidText,
    /// A schema byte is outside the reserved code table.
    UnknownTypeCode,
}

/// The mathematical value of one field: what the contracts speak of. A
/// string is modelled by its character sequence, a byte field by its byte
/// sequence, and a float by its IEEE-754 bit pattern.
pub enum FieldModel {
    U8(u8),
    U16(u16),
    U32(u32),
    U64(u64),
    U128(u128),
    I32(i32),
    I64(i64),
    Str(Seq<char>),
    Bytes(Seq<u8>),
    Bool(bool),
    F32(u32),
    F64(u64),
}

/// The two's-complement bit pattern of a 32-bit signed value, as a number.
pub open spec fn i32_bits(x: i32) -> nat {
    if x >= 0 {
        x as nat
    } else {
        (x + 0x1_0000_0000) as nat
    }
}

/// The two's-complement bit pattern of a 64-bit signed value, as a number.
pub open spec fn i64_bits(x: i64) -> nat {
    if x >= 0 {
        x as nat
    } else {
        (x + 0x1_0000_0000_0000_0000) as nat
    }
}

/// The 32-bit signed value with the given two's-complement bit pattern.
pub open spec fn i32_from_bits(b: nat) -> i32
    recommends
        b < 0x1_0000_0000,
{
    if b < 0x8000_0000 {
        b as i32
    } else {
        (b - 0x1_0000_0000) as i32
    }
}

/// The 64-bit signed value with the given two's-complement bit pattern.
pub open spec fn i64_from_bits(b: nat) -> i64
    recommends
        b < 0x1_0000_0000_0000_0000,
{
    if b < 0x8000_0000_0000_0000 {
        b as i64
    } else {
        (b - 0x1_0000_0000_0000_0000) as i64
    }
}

/// The wire form of one field value, per the encoding table: fixed-width
/// big-endian bytes for integers, booleans and float bits, and a four-byte
/// big-endian length prefix followed by the payload for strings (UTF-8
/// bytes) and byte sequences.
pub open spec fn spec_encode_field(m: FieldModel) -> Seq<u8> {
    match m {
        FieldModel::U8(x) => be_bytes(x as nat, 1),
        FieldModel::U16(x) => be_bytes(x as nat, 2),
        FieldModel::U32(x) => be_bytes(x as nat, 4),
        FieldModel::U64(x) => be_bytes(x as nat, 8),
        FieldModel::U128(x) => be_bytes(x as nat, 16),
        FieldModel::I32(x) => be_bytes(i32_bits(x), 4),
        FieldModel::I64(x) => be_bytes(i64_bits(x), 8),
        FieldModel::Str(cs) => be_bytes(encode_utf8(cs).len(), 4) + encode_utf8(cs),
        FieldModel::Bytes(bs) => be_bytes(bs.len(), 4) + bs,
        FieldModel::Bool(b) => seq![if b { 1u8 } else { 0u8 }],
        FieldModel::F32(bits) => be_bytes(bits as nat, 4),
        FieldModel::F64(bits) => be_bytes(bits as nat, 8),
    }
}

/// True when the field fits the wire format's machine limit: a
/// variable-width payload must fit its four-byte length prefix.
pub open spec fn field_encodable(m: FieldModel) -> bool {
    match m {
        FieldModel::Str(cs) => encode_utf8(cs).len() <= 0xffff_ffff,
        FieldModel::Bytes(bs) => bs.len() <= 0xffff_ffff,
        _ => true,
    }
}

/// A value that can stand as one field of a compound key.
pub trait Encode {
    /// The mathematical value of this field.
    spec fn model(&self) -> FieldModel;

    /// True when the field fits the wire format's machine limits.
    spec fn encodable(&self) -> bool;

    /// Encodes the field per the wire table.
    fn encode(&self) -> (r: Vec<u8>)
        requires
            self.encodable(),
        ensures
            r@ == spec_encode_field(self.model()),
    ;
}

impl Encode for EncodeType {
    open spec fn model(&self) -> FieldModel {
        match self {
            EncodeType::SortU8(x) => FieldModel::U8(*x),
            EncodeType::SortU16(x) => FieldModel::U16(*x),
            EncodeType::SortU32(x) => FieldModel::U32(*x),
            EncodeType::SortU64(x) => FieldModel::U64(*x),
            EncodeType::SortU128(x) => FieldModel::U128(*x),
            EncodeType::SortI32(x) => FieldModel::I32(*x),
            EncodeType::SortI64(x) => FieldModel::I64(*x),
            EncodeType::SortString(s) => FieldModel::Str(s@),
            EncodeType::SortBytes(b) => FieldModel::Bytes(b@),
            EncodeType::SortBool(b) => FieldModel::Bool(*b),
            EncodeType::SortF32(f) => FieldModel::F32(f.bits),
            EncodeType::SortF64(f) => FieldModel::F64(f.bits),
        }
    }

    open spec fn encodable(&self) -> bool {
        field_encodable(self.model())
    }

    fn encode(&self) -> (r: Vec<u8>) {
        match self {
            EncodeType::SortU8(x) => be_encode(*x as u128, 1),
            EncodeType::SortU16(x) => be_encode(*x as u128, 2),
            EncodeType::SortU32(x) => be_encode(*x as u128, 4),
            EncodeType::SortU64(x) => be_encode(*x as u128, 8),
            EncodeType::SortU128(x) => be_encode(*x, 16),
            EncodeType::SortI32(x) => {
                let bits: u32 = if *x >= 0 {
                    *x as u32
                } else {
                    ((*x as i64) + 0x1_0000_0000) as u32
                };
                be_encode(bits as u128, 4)
            },
            EncodeType::SortI64(x) => {
                let bits: u64 = if *x >= 0 {
                    *x as u64
                } else {
                    ((*x as i128) + 0x1_0000_0000_0000_0000) as u64
                };
                be_encode(bits as u128, 8)
            },
            EncodeType::SortString(s) => {
                let mut payload = s.as_str().as_bytes_vec();
                let mut r = be_encode(payload.len() as u128, 4);
                r.append(&mut payload);
                r
            },
            EncodeType::SortBytes(b) => {
                let mut payload = slice_to_vec(b.as_slice());
                let mut r = be_encode(payload.len() as u128, 4);
                r.append(&mut payload);
                r
            },
            EncodeType::SortBool(b) => {
                let mut r: Vec<u8> = Vec::new();
                r.push(if *b { 1u8 } else { 0u8 });
                proof {
                    assert(r@ =~= seq![if *b { 1u8 } else { 0u8 }]);
                }
                r
            },
            EncodeType::SortF32(f) => be_encode(f.bits as u128, 4),
            EncodeType::SortF64(f) => be_encode(f.bits as u128, 8),
        }
    }
}

/// The models of a sequence of fields, in order.
pub open spec fn models<T: Encode>(s: Seq<T>) -> Seq<FieldModel> {
    Seq::new(s.len(), |i: int| s[i].model())
}

/// True when every field of the sequence fits the wire format's limits.
pub open spec fn all_encodable<T: Encode>(s: Seq<T>) -> bool {
    forall|i: int| 0 <= i < s.len() ==> #[trigger] s[i].encodable()
}

/// True when every field model of the sequence fits the wire format's limits.
pub open spec fn all_fields_encodable(ms: Seq<FieldModel>) -> bool {
    forall|i: int| 0 <= i < ms.len() ==> #[trigger] field_encodable(ms[i])
}

/// The wire form of a compound key: the concatenation of its fields'
/// encodings, in order.
pub open spec fn spec_encode_models(ms: Seq<FieldModel>) -> Seq<u8>
    decreases ms.len(),
{
    if ms.len() == 0 {
        Seq::empty()
    } else {
        spec_encode_field(ms[0]) + spec_encode_models(ms.drop_first())
    }
}

/// Encodes an ordered sequence of fields as one compound key: each field's
/// encoding is appended in sequence order, with no separators.
pub fn encode_keys<T: Encode>(keys: &[T]) -> (r: Vec<u8>)
    requires
        all_encodable(keys@),
    ensures
        r@ == spec_encode_models(models(keys@)),
{
    let ghost ms = models(keys@);
    let mut encoded_data: Vec<u8> = Vec::new();
    proof {
        assert(ms.skip(0) =~= ms);
        assert(encoded_data@ + spec_encode_models(ms) =~= spec_encode_models(ms));
    }
    let n = keys.len();
    let mut i: usize = 0;
    while i < n
        invariant
            n == keys@.len(),
            i <= n,
            all_encodable(keys@),
            ms == models(keys@),
            encoded_data@ + spec_encode_models(ms.skip(i as int)) == spec_encode_models(ms),
        decreases n - i,
    {
        let ghost prev = encoded_data@;
        let key = slice_index_get(keys, i);
        let mut piece = key.encode();
        encoded_data.append(&mut piece);
        proof {
            let rest = ms.skip(i as int);
            assert(rest[0] == ms[i as int]);
            assert(rest.drop_first() =~= ms.skip(i as int + 1));
            assert(encoded_data@ + spec_encode_models(ms.skip(i as int + 1)) =~= prev
                + spec_encode_models(rest));
        }
        i += 1;
    }
    proof {
        assert(ms.skip(n as int) =~= Seq::<FieldModel>::empty());
        assert(encoded_data@ =~= encoded_data@ + spec_encode_models(ms.skip(n as int)));
    }
    encoded_data
}

/// What decoding one field at `pos` yields: the field's model and the new
/// cursor position, or the error. Decoding fails with `Truncated` when the
/// buffer holds fewer bytes than the type needs, and with `InvalidText` when
/// a string payload is present but is not valid UTF-8. `Reverse` is not a
/// decodable type; callers filter it out first.
pub open spec fn spec_decode_field(data: Seq<u8>, t: DecodeType, pos: nat) -> Result<
    (FieldModel, nat),
    DecodeError,
>
    recommends
        !(t is Reverse),
{
    match t {
        DecodeType::DecodeU8 => spec_decode_fixed(data, t, pos, 1),
        DecodeType::DecodeU16 => spec_decode_fixed(data, t, pos, 2),
        DecodeType::DecodeU32 => spec_decode_fixed(data, t, pos, 4),
        DecodeType::DecodeU64 => spec_decode_fixed(data, t, pos, 8),
        DecodeType::DecodeU128 => spec_decode_fixed(data, t, pos, 16),
        DecodeType::DecodeI32 => spec_decode_fixed(data, t, pos, 4),
        DecodeType::DecodeI64 => spec_decode_fixed(data, t, pos, 8),
        DecodeType::DecodeBool => spec_decode_fixed(data, t, pos, 1),
        DecodeType::DecodeF32 => spec_decode_fixed(data, t, pos, 4),
        DecodeType::DecodeF64 => spec_decode_fixed(data, t, pos, 8),
        DecodeType::DecodeString => {
            if pos + 4 <= data.len() {
                let l = be_value(data.subrange(pos as int, (pos + 4) as int));
                if pos + 4 + l <= data.len() {
                    let payload = data.subrange((pos + 4) as int, (pos + 4 + l) as int);
                    if valid_utf8(payload) {
                        Ok((FieldModel::Str(decode_utf8(payload)), pos + 4 + l))
                    } else {
                        Err(DecodeError::InvalidText)
                    }
                } else {
                    Err(DecodeError::Truncated)
                }
            } else {
                Err(DecodeError::Truncated)
            }
        },
        DecodeType::DecodeBytes => {
            if pos + 4 <= data.len() {
                let l = be_value(data.subrange(pos as int, (pos + 4) as int));
                if pos + 4 + l <= data.len() {
                    Ok(
                        (
                            FieldModel::Bytes(
                                data.subrange((pos + 4) as int, (pos + 4 + l) as int),
                            ),
                            pos + 4 + l,
                        ),
                    )
                } else {
                    Err(DecodeError::Truncated)
                }
            } else {
                Err(DecodeError::Truncated)
            }
        },
        DecodeType::Reverse => arbitrary(),
    }
}

/// The fixed-width arm of [`spec_decode_field`]: `n` bytes at `pos`, read
/// big-endian and converted per the type.
pub open spec fn spec_decode_fixed(data: Seq<u8>, t: DecodeType, pos: nat, n: nat) -> Result<
    (FieldModel, nat),
    DecodeError,
> {
    if pos + n <= data.len() {
        let v = be_value(data.subrange(pos as int, (pos + n) as int));
        Ok((fixed_model(t, v), pos + n))
    } else {
        Err(DecodeError::Truncated)
    }
}

/// The field model a fixed-width type gives to the value read off the wire.
pub open spec fn fixed_model(t: DecodeType, v: nat) -> FieldModel {
    match t {
        DecodeType::DecodeU8 => FieldModel::U8(v as u8),
        DecodeType::DecodeU16 => FieldModel::U16(v as u16),
        DecodeType::DecodeU32 => FieldModel::U32(v as u32),
        DecodeType::DecodeU64 => FieldModel::U64(v as u64),
        DecodeType::DecodeU128 => FieldModel::U128(v as u128),
        DecodeType::DecodeI32 => FieldModel::I32(i32_from_bits(v)),
        DecodeType::DecodeI64 => FieldModel::I64(i64_from_bits(v)),
        DecodeType::DecodeBool => FieldModel::Bool(v == 1),
        DecodeType::DecodeF32 => FieldModel::F32(v as u32),
        DecodeType::DecodeF64 => FieldModel::F64(v as u64),
        _ => arbitrary(),
    }
}

/// Relies on `String::from_utf8`: it succeeds exactly when the bytes are a
/// valid UTF-8 encoding, and then returns the string of the characters those
/// bytes encode.
#[verifier::external_body]
fn string_from_utf8(bytes: Vec<u8>) -> (r: Option<String>)
    ensures
        r matches Some(s) ==> s@ == decode_utf8(bytes@),
        r is Some <==> valid_utf8(bytes@),
{
    match String::from_utf8(bytes) {
        Ok(s) => Some(s),
        Err(_) => None,
    }
}

/// Reads `n` bytes at the cursor as a big-endian value and advances the
/// cursor, or reports truncation and leaves the cursor in place.
fn take_fixed(data: &[u8], pos: &mut usize, n: usize) -> (r: Result<u128, DecodeError>)
    requires
        1 <= n <= 16,
    ensures
        match r {
            Ok(x) => {
                &&& *old(pos) + n <= data@.len()
                &&& *final(pos) == *old(pos) + n
                &&& x as nat == be_value(
                    data@.subrange(*old(pos) as int, (*old(pos) + n) as int),
                )
                &&& x < pow256(n as nat)
            },
            Err(e) => {
                &&& e == DecodeError::Truncated
                &&& *old(pos) + n > data@.len()
                &&& *final(pos) == *old(pos)
            },
        },
{
    if data.len() < n || *pos > data.len() - n {
        Err(DecodeError::Truncated)
    } else {
        let x = be_decode(data, *pos, n);
        proof {
            lemma_be_value_bound(data@.subrange(*pos as int, (*pos + n) as int));
        }
        *pos = *pos + n;
        Ok(x)
    }
}

/// A type that can decode one field of a compound key at a cursor.
pub trait Decode {
    /// Reads exactly the bytes of one field of type `the_type` starting at
    /// the cursor and advances the cursor past them; on failure the cursor
    /// is left where it was and the cause is reported, exactly as
    /// [`spec_decode_field`] says.
    fn decode(data: &[u8], the_type: DecodeType, pos: &mut usize) -> (r: Result<
        EncodeType,
        DecodeError,
    >)
        requires
            !(the_type is Reverse),
        ensures
            ({
                let d = spec_decode_field(data@, the_type, *old(pos) as nat);
                match r {
                    Ok(v) => d matches Ok(p) && p.0 == v.model() && p.1 == *final(pos) as nat,
                    Err(e) => d matches Err(e2) && e2 == e && *final(pos) == *old(pos),
                }
            }),
    ;
}

impl Decode for DecodeType {
    #[verifier::spinoff_prover]
    #[verifier::rlimit(60)]
    fn decode(data: &[u8], the_type: DecodeType, pos: &mut usize) -> (r: Result<
        EncodeType,
        DecodeError,
    >) {
        proof {
            lemma_pow256_values();
        }
        match the_type {
            DecodeType::DecodeU8 => match take_fixed(data, pos, 1) {
                Ok(x) => Ok(EncodeType::SortU8(x as u8)),
                Err(e) => Err(e),
            },
            DecodeType::DecodeU16 => match take_fixed(data, pos, 2) {
                Ok(x) => Ok(EncodeType::SortU16(x as u16)),
                Err(e) => Err(e),
            },
            DecodeType::DecodeU32 => match take_fixed(data, pos, 4) {
                Ok(x) => Ok(EncodeType::SortU32(x as u32)),
                Err(e) => Err(e),
            },
            DecodeType::DecodeU64 => match take_fixed(data, pos, 8) {
                Ok(x) => Ok(EncodeType::SortU64(x as u64)),
                Err(e) => Err(e),
            },
            DecodeType::DecodeU128 => match take_fixed(data, pos, 16) {
                Ok(x) => Ok(EncodeType::SortU128(x)),
                Err(e) => Err(e),
            },
            DecodeType::DecodeI32 => match take_fixed(data, pos, 4) {
                Ok(x) => {
                    let v: i32 = if x < 0x8000_0000 {
                        x as i32
                    } else {
                        ((x as i128) - 0x1_0000_0000) as i32
                    };
                    Ok(EncodeType::SortI32(v))
                },
                Err(e) => Err(e),
            },
            DecodeType::DecodeI64 => match take_fixed(data, pos, 8) {
                Ok(x) => {
                    let v: i64 = if x < 0x8000_0000_0000_0000 {
                        x as i64
                    } else {
                        ((x as i128) - 0x1_0000_0000_0000_0000) as i64
                    };
                    Ok(EncodeType::SortI64(v))
                },
                Err(e) => Err(e),
            },
            DecodeType::DecodeBool => match take_fixed(data, pos, 1) {
                Ok(x) => Ok(EncodeType::SortBool(x == 1)),
                Err(e) => Err(e),
            },
            DecodeType::DecodeF32 => match take_fixed(data, pos, 4) {
                Ok(x) => Ok(EncodeType::SortF32(F32struct::new(x as u32))),
                Err(e) => Err(e),
            },
            DecodeType::DecodeF64 => match take_fixed(data, pos, 8) {
                Ok(x) => Ok(EncodeType::SortF64(F64struct::new(x as u64))),
                Err(e) => Err(e),
            },
            DecodeType::DecodeString => {
                let saved = *pos;
                match take_fixed(data, pos, 4) {
                    Ok(l128) => {
                        let start = *pos;
                        if l128 > (data.len() - start) as u128 {
                            *pos = saved;
                            Err(DecodeError::Truncated)
                        } else {
                            let l = l128 as usize;
                            let payload = slice_subrange(data, start, start + l);
                            let bytes = slice_to_vec(payload);
                            match string_from_utf8(bytes) {
                                Some(s) => {
                                    *pos = start + l;
                                    Ok(EncodeType::SortString(s))
                                },
                                None => {
                                    *pos = saved;
                                    Err(DecodeError::InvalidText)
                                },
                            }
                        }
                    },
                    Err(e) => Err(e),
                }
            },
            DecodeType::DecodeBytes => {
                let saved = *pos;
                match take_fixed(data, pos, 4) {
                    Ok(l128) => {
                        let start = *pos;
                        if l128 > (data.len() - start) as u128 {
                            *pos = saved;
                            Err(DecodeError::Truncated)
                        } else {
                            let l = l128 as usize;
                            let payload = slice_subrange(data, start, start + l);
                            let bytes = slice_to_vec(payload);
                            *pos = start + l;
                            Ok(EncodeType::SortBytes(bytes))
                        }
                    },
                    Err(e) => Err(e),
                }
            },
            DecodeType::Reverse => vstd::pervasive::unreached(),
        }
    }
}

/// What decoding a byte buffer against the schema entries from index `i` on,
/// starting at cursor `pos`, yields: the decoded field models in order and
/// the final cursor, or the first error. `Reverse` entries are skipped with
/// no cursor movement and no output.
pub open spec fn spec_decode_seq(
    data: Seq<u8>,
    ts: Seq<DecodeType>,
    i: int,
    pos: nat,
) -> Result<(Seq<FieldModel>, nat), DecodeError>
    decreases ts.len() - i,
{
    if i < 0 || i >= ts.len() {
        Ok((Seq::empty(), pos))
    } else if ts[i] is Reverse {
        spec_decode_seq(data, ts, i + 1, pos)
    } else {
        match spec_decode_field(data, ts[i], pos) {
            Ok(p) => match spec_decode_seq(data, ts, i + 1, p.1) {
                Ok(q) => Ok((seq![p.0] + q.0, q.1)),
                Err(e) => Err(e),
            },
            Err(e) => Err(e),
        }
    }
}

/// Decodes a compound key against a schema: walks the schema left to right,
/// skips `Reverse` entries, and decodes one field per remaining entry at a
/// strictly advancing cursor. The output holds one value per non-`Reverse`
/// schema entry; trailing bytes beyond the schema's needs are ignored.
/// Fails, with the first field's error, when the schema requests more data
/// than the buffer contains or a string payload is not valid UTF-8.
pub fn decode_byte_array(data: &[u8], the_types: &Vec<DecodeType>) -> (r: Result<
    Vec<EncodeType>,
    DecodeError,
>)
    ensures
        ({
            let d = spec_decode_seq(data@, the_types@, 0, 0);
            match r {
                Ok(vs) => d matches Ok(p) && p.0 == models(vs@),
                Err(e) => d matches Err(e2) && e2 == e,
            }
        }),
{
    let ghost ts = the_types@;
    let mut pos: usize = 0;
    let mut decoded_data: Vec<EncodeType> = Vec::new();
    proof {
        assert(models(decoded_data@) =~= Seq::<FieldModel>::empty());
    }
    let n = the_types.len();
    let mut i: usize = 0;
    while i < n
        invariant
            n == ts.len(),
            ts == the_types@,
            i <= n,
            spec_decode_seq(data@, ts, 0, 0) == (match spec_decode_seq(
                data@,
                ts,
                i as int,
                pos as nat,
            ) {
                Ok(p) => Ok::<(Seq<FieldModel>, nat), DecodeError>(
                    (models(decoded_data@) + p.0, p.1),
                ),
                Err(e) => Err::<(Seq<FieldModel>, nat), DecodeError>(e),
            }),
        decreases n - i,
    {
        let the_type = the_types[i];
        if matches!(the_type, DecodeType::Reverse) {
            i += 1;
            continue ;
        }
        let ghost prev = decoded_data@;
        let ghost prev_pos = pos as nat;
        match DecodeType::decode(data, the_type, &mut pos) {
            Ok(v) => {
                decoded_data.push(v);
                proof {
                    assert(models(decoded_data@) =~= models(prev) + seq![v.model()]);
                    let p = spec_decode_field(data@, ts[i as int], prev_pos)->Ok_0;
                    if spec_decode_seq(data@, ts, i as int + 1, p.1) is Ok {
                        let q = spec_decode_seq(data@, ts, i as int + 1, p.1)->Ok_0;
                        assert((models(prev) + seq![v.model()]) + q.0 =~= models(prev) + (seq![
                            p.0,
                        ] + q.0));
                    }
                }
                i += 1;
            },
            Err(e) => {
                return Err(e);
            },
        }
    }
    proof {
        assert(models(decoded_data@) + Seq::<FieldModel>::empty() =~= models(decoded_data@));
    }
    Ok(decoded_data)
}

/// True when `t` describes fields of `m`'s variant; `Reverse` describes none.
pub open spec fn variant_matches(t: DecodeType, m: FieldModel) -> bool {
    match t {
        DecodeType::DecodeU8 => m is U8,
        DecodeType::DecodeU16 => m is U16,
        DecodeType::DecodeU32 => m is U32,
        DecodeType::DecodeU64 => m is U64,
        DecodeType::DecodeU128 => m is U128,
        DecodeType::DecodeI32 => m is I32,
        DecodeType::DecodeI64 => m is I64,
        DecodeType::DecodeString => m is Str,
        DecodeType::DecodeBytes => m is Bytes,
        DecodeType::DecodeBool => m is Bool,
        DecodeType::DecodeF32 => m is F32,
        DecodeType::DecodeF64 => m is F64,
        DecodeType::Reverse => false,
    }
}

/// True when the field models match, in order and variant by variant, the
/// non-`Reverse` schema entries from index `i` on: same count, and the
/// variant of each model is the one its descriptor expects.
pub open spec fn shape_rest(ts: Seq<DecodeType>, i: int, ms: Seq<FieldModel>) -> bool
    decreases ts.len() - i,
{
    if i < 0 {
        false
    } else if i >= ts.len() {
        ms.len() == 0
    } else if ts[i] is Reverse {
        shape_rest(ts, i + 1, ms)
    } else {
        ms.len() > 0 && variant_matches(ts[i], ms[0]) && shape_rest(ts, i + 1, ms.drop_first())
    }
}

/// True when the field models match the schema's shape: one model per
/// non-`Reverse` entry, each of the variant its descriptor expects.
pub open spec fn shape_ok(ts: Seq<DecodeType>, ms: Seq<FieldModel>) -> bool {
    shape_rest(ts, 0, ms)
}

/// A field decoded under a descriptor has the variant the descriptor names.
pub proof fn lemma_decode_field_variant(data: Seq<u8>, t: DecodeType, pos: nat)
    requires
        !(t is Reverse),
        spec_decode_field(data, t, pos) is Ok,
    ensures
        variant_matches(t, spec_decode_field(data, t, pos)->Ok_0.0),
{
}

/// Whatever a successful schema-driven decode returns matches the schema's
/// shape, so it can be handed to the comparator or the validator as is.
pub proof fn lemma_decoded_shape(data: Seq<u8>, ts: Seq<DecodeType>, i: int, pos: nat)
    requires
        0 <= i,
        spec_decode_seq(data, ts, i, pos) is Ok,
    ensures
        shape_rest(ts, i, spec_decode_seq(data, ts, i, pos)->Ok_0.0),
    decreases ts.len() - i,
{
    if i >= ts.len() {
    } else if ts[i] is Reverse {
        lemma_decoded_shape(data, ts, i + 1, pos);
    } else {
        let p = spec_decode_field(data, ts[i], pos)->Ok_0;
        lemma_decode_field_variant(data, ts[i], pos);
        lemma_decoded_shape(data, ts, i + 1, p.1);
        let q = spec_decode_seq(data, ts, i + 1, p.1)->Ok_0;
        assert((seq![p.0] + q.0).drop_first() =~= q.0);
    }
}

proof fn lemma_fixed_local(data: Seq<u8>, t: DecodeType, pos: nat, v: nat, n: nat)
    requires
        v < pow256(n),
        pos + n <= data.len(),
        data.subrange(pos as int, (pos + n) as int) == be_bytes(v, n),
    ensures
        spec_decode_fixed(data, t, pos, n) == Ok::<(FieldModel, nat), DecodeError>(
            (fixed_model(t, v), pos + n),
        ),
{
    lemma_be_bytes_len(v, n);
    lemma_be_value_of_be_bytes(v, n);
}

/// A field's encoding, read back at its own position under the matching
/// descriptor, decodes to exactly the field and consumes exactly its bytes,
/// wherever it sits in a larger buffer.
pub proof fn lemma_field_local(data: Seq<u8>, t: DecodeType, pos: nat, m: FieldModel)
    requires
        variant_matches(t, m),
        field_encodable(m),
        pos + spec_encode_field(m).len() <= data.len(),
        data.subrange(pos as int, (pos + spec_encode_field(m).len()) as int) == spec_encode_field(
            m,
        ),
    ensures
        spec_decode_field(data, t, pos) == Ok::<(FieldModel, nat), DecodeError>(
            (m, pos + spec_encode_field(m).len()),
        ),
{
    lemma_pow256_values();
    let enc = spec_encode_field(m);
    let w = enc.len();
    assert forall|k: int| 0 <= k < w implies data[pos + k] == enc[k] by {
        assert(data.subrange(pos as int, (pos + w) as int)[k] == enc[k]);
    }
    match m {
        FieldModel::U8(x) => {
            lemma_be_bytes_len(x as nat, 1);
            assert(data.subrange(pos as int, (pos + 1) as int) =~= enc);
            lemma_fixed_local(data, t, pos, x as nat, 1);
        },
        FieldModel::U16(x) => {
            lemma_be_bytes_len(x as nat, 2);
            assert(data.subrange(pos as int, (pos + 2) as int) =~= enc);
            lemma_fixed_local(data, t, pos, x as nat, 2);
        },
        FieldModel::U32(x) => {
            lemma_be_bytes_len(x as nat, 4);
            assert(data.subrange(pos as int, (pos + 4) as int) =~= enc);
            lemma_fixed_local(data, t, pos, x as nat, 4);
        },
        FieldModel::U64(x) => {
            lemma_be_bytes_len(x as nat, 8);
            assert(data.subrange(pos as int, (pos + 8) as int) =~= enc);
            lemma_fixed_local(data, t, pos, x as nat, 8);
        },
        FieldModel::U128(x) => {
            lemma_be_bytes_len(x as nat, 16);
            assert(data.subrange(pos as int, (pos + 16) as int) =~= enc);
            lemma_fixed_local(data, t, pos, x as nat, 16);
        },
        FieldModel::I32(x) => {
            assert(i32_bits(x) < pow256(4));
            lemma_be_bytes_len(i32_bits(x), 4);
            assert(data.subrange(pos as int, (pos + 4) as int) =~= enc);
            lemma_fixed_local(data, t, pos, i32_bits(x), 4);
            assert(i32_from_bits(i32_bits(x)) == x);
        },
        FieldModel::I64(x) => {
            assert(i64_bits(x) < pow256(8));
            lemma_be_bytes_len(i64_bits(x), 8);
            assert(data.subrange(pos as int, (pos + 8) as int) =~= enc);
            lemma_fixed_local(data, t, pos, i64_bits(x), 8);
            assert(i64_from_bits(i64_bits(x)) == x);
        },
        FieldModel::Bool(b) => {
            let v: nat = if b {
                1
            } else {
                0
            };
            assert(be_bytes(v, 1) =~= seq![if b { 1u8 } else { 0u8 }]) by {
                reveal_with_fuel(be_bytes, 3);
            }
            assert(data.subrange(pos as int, (pos + 1) as int) =~= be_bytes(v, 1));
            lemma_fixed_local(data, t, pos, v, 1);
        },
        FieldModel::F32(bits) => {
            lemma_be_bytes_len(bits as nat, 4);
            assert(data.subrange(pos as int, (pos + 4) as int) =~= enc);
            lemma_fixed_local(data, t, pos, bits as nat, 4);
        },
        FieldModel::F64(bits) => {
            lemma_be_bytes_len(bits as nat, 8);
            assert(data.subrange(pos as int, (pos + 8) as int) =~= enc);
            lemma_fixed_local(data, t, pos, bits as nat, 8);
        },
        FieldModel::Str(cs) => {
            let bs = encode_utf8(cs);
            let l = bs.len();
            lemma_be_bytes_len(l, 4);
            assert(data.subrange(pos as int, (pos + 4) as int) =~= be_bytes(l, 4));
            lemma_be_value_of_be_bytes(l, 4);
            assert(data.subrange((pos + 4) as int, (pos + 4 + l) as int) =~= bs) by {
                assert forall|k: int|
                    0 <= k < l implies data.subrange((pos + 4) as int, (pos + 4 + l) as int)[k]
                    == bs[k] by {
                    assert(data.subrange(pos as int, (pos + w) as int)[4 + k] == enc[4 + k]);
                    assert(data.subrange(pos as int, (pos + w) as int)[4 + k] == data[pos + 4 + k]);
                    assert(enc[4 + k] == bs[k]);
                    assert(data.subrange((pos + 4) as int, (pos + 4 + l) as int)[k] == data[pos + 4
                        + k]);
                }
            }
            encode_utf8_valid_utf8(cs);
            encode_utf8_decode_utf8(cs);
        },
        FieldModel::Bytes(bs) => {
            let l = bs.len();
            lemma_be_bytes_len(l, 4);
            assert(data.subrange(pos as int, (pos + 4) as int) =~= be_bytes(l, 4));
            lemma_be_value_of_be_bytes(l, 4);
            assert(data.subrange((pos + 4) as int, (pos + 4 + l) as int) =~= bs) by {
                assert forall|k: int|
                    0 <= k < l implies data.subrange((pos + 4) as int, (pos + 4 + l) as int)[k]
                    == bs[k] by {
                    assert(data.subrange(pos as int, (pos + w) as int)[4 + k] == enc[4 + k]);
                    assert(data.subrange(pos as int, (pos + w) as int)[4 + k] == data[pos + 4 + k]);
                    assert(enc[4 + k] == bs[k]);
                    assert(data.subrange((pos + 4) as int, (pos + 4 + l) as int)[k] == data[pos + 4
                        + k]);
                }
            }
        },
    }
}

proof fn lemma_decode_encode_rest(
    data: Seq<u8>,
    ts: Seq<DecodeType>,
    i: int,
    pos: nat,
    ms: Seq<FieldModel>,
)
    requires
        0 <= i,
        shape_rest(ts, i, ms),
        all_fields_encodable(ms),
        pos + spec_encode_models(ms).len() <= data.len(),
        data.subrange(pos as int, (pos + spec_encode_models(ms).len()) as int)
            == spec_encode_models(ms),
    ensures
        spec_decode_seq(data, ts, i, pos) == Ok::<(Seq<FieldModel>, nat), DecodeError>(
            (ms, pos + spec_encode_models(ms).len()),
        ),
    decreases ts.len() - i,
{
    if i >= ts.len() {
        assert(ms =~= Seq::<FieldModel>::empty());
    } else if ts[i] is Reverse {
        lemma_decode_encode_rest(data, ts, i + 1, pos, ms);
    } else {
        let m0 = ms[0];
        let w0 = spec_encode_field(m0).len();
        let rest = ms.drop_first();
        let wr = spec_encode_models(rest).len();
        let enc = spec_encode_models(ms);
        let w = enc.len();
        assert(enc == spec_encode_field(m0) + spec_encode_models(rest));
        assert forall|k: int| 0 <= k < w implies data[pos + k] == enc[k] by {
            assert(data.subrange(pos as int, (pos + w) as int)[k] == enc[k]);
        }
        assert(field_encodable(m0)) by {
            assert(ms[0] == m0);
        }
        assert(data.subrange(pos as int, (pos + w0) as int) =~= spec_encode_field(m0));
        lemma_field_local(data, ts[i], pos, m0);
        assert(data.subrange((pos + w0) as int, (pos + w0 + wr) as int) =~= spec_encode_models(
            rest,
        )) by {
            assert forall|k: int|
                0 <= k < wr implies data.subrange((pos + w0) as int, (pos + w0 + wr) as int)[k]
                == spec_encode_models(rest)[k] by {
                assert(data.subrange(pos as int, (pos + w) as int)[w0 + k] == enc[w0 + k]);
                assert(data.subrange(pos as int, (pos + w) as int)[w0 + k] == data[pos + w0 + k]);
                assert(enc[w0 + k] == spec_encode_models(rest)[k]);
                assert(data.subrange((pos + w0) as int, (pos + w0 + wr) as int)[k] == data[pos + w0
                    + k]);
            }
        }
        assert(all_fields_encodable(rest)) by {
            assert forall|k: int| 0 <= k < rest.len() implies #[trigger] field_encodable(
                rest[k],
            ) by {
                assert(rest[k] == ms[k + 1]);
            }
        }
        lemma_decode_encode_rest(data, ts, i + 1, pos + w0, rest);
        assert(seq![m0] + rest =~= ms);
    }
}

/// Compound round-trip: the encoding of an ordered field sequence, decoded
/// against any schema whose shape the sequence matches, yields back exactly
/// the models that were encoded, consuming the whole encoding.
pub proof fn lemma_decode_encode_roundtrip(ts: Seq<DecodeType>, ms: Seq<FieldModel>)
    requires
        shape_ok(ts, ms),
        all_fields_encodable(ms),
    ensures
        spec_decode_seq(spec_encode_models(ms), ts, 0, 0) == Ok::<
            (Seq<FieldModel>, nat),
            DecodeError,
        >((ms, spec_encode_models(ms).len())),
{
    let data = spec_encode_models(ms);
    assert(data.subrange(0, data.len() as int) =~= data);
    lemma_decode_encode_rest(data, ts, 0, 0, ms);
}

/// Field round-trip: one encoded field, decoded under its matching
/// descriptor, yields back exactly the value that was encoded.
pub proof fn lemma_field_roundtrip(t: DecodeType, m: FieldModel)
    requires
        variant_matches(t, m),
        field_encodable(m),
    ensures
        spec_decode_field(spec_encode_field(m), t, 0) == Ok::<(FieldModel, nat), DecodeError>(
            (m, spec_encode_field(m).len()),
        ),
{
    let data = spec_encode_field(m);
    assert(data.subrange(0, data.len() as int) =~= data);
    lemma_field_local(data, t, 0, m);
}

} // verus!
