//! The compound comparator.
//!
//! Raw bytes of some field types do not sort correctly under plain
//! lexicographic byte comparison (two's-complement sign bits, IEEE-754 bit
//! patterns of negative floats, variable-length payloads), so ordering is
//! always computed at the value level: both sides are decoded against a
//! shared schema and compared field by field, first difference wins. A
//! `Reverse` schema entry swaps the operands of the single next non-`Reverse`
//! field's comparison and is then forgotten.

use crate::float_order::f32_cmp;
use crate::float_order::f64_cmp;
use crate::keys::models;
use crate::keys::shape_ok;
use crate::keys::shape_rest;
use crate::keys::spec_decode_seq;
use crate::keys::decode_byte_array;
use crate::keys::DecodeType;
use crate::keys::Encode;
use crate::keys::EncodeType;
use crate::keys::FieldModel;
use crate::keys::variant_matches;
use std::cmp::Ordering;
use vstd::prelude::*;
use vstd::slice::slice_index_get;
use vstd::string::StrSliceExecFns;

verus! {

/// The order of two integers, as an `Ordering`.
pub open spec fn int_cmp(x: int, y: int) -> Ordering {
    if x < y {
        Ordering::Less
    } else if x == y {
        Ordering::Equal
    } else {
        Ordering::Greater
    }
}

/// `false` below `true`, as a number.
pub open spec fn bool_int(b: bool) -> int {
    if b {
        1
    } else {
        0
    }
}

/// Lexicographic order on byte sequences: first differing byte wins, and a
/// proper prefix comes before every extension of it. On the UTF-8 bytes of
/// two strings this is the byte-wise string order.
pub open spec fn lex_cmp(a: Seq<u8>, b: Seq<u8>) -> Ordering
    decreases a.len(),
{
    if a.len() == 0 && b.len() == 0 {
        Ordering::Equal
    } else if a.len() == 0 {
        Ordering::Less
    } else if b.len() == 0 {
        Ordering::Greater
    } else if a[0] < b[0] {
        Ordering::Less
    } else if a[0] > b[0] {
        Ordering::Greater
    } else {
        lex_cmp(a.drop_first(), b.drop_first())
    }
}

/// True when the two field models are the same variant: only then are the
/// fields comparable.
pub open spec fn same_variant(a: FieldModel, b: FieldModel) -> bool {
    match (a, b) {
        (FieldModel::U8(_), FieldModel::U8(_)) => true,
        (FieldModel::U16(_), FieldModel::U16(_)) => true,
        (FieldModel::U32(_), FieldModel::U32(_)) => true,
        (FieldModel::U64(_), FieldModel::U64(_)) => true,
        (FieldModel::U128(_), FieldModel::U128(_)) => true,
        (FieldModel::I32(_), FieldModel::I32(_)) => true,
        (FieldModel::I64(_), FieldModel::I64(_)) => true,
        (FieldModel::Str(_), FieldModel::Str(_)) => true,
        (FieldModel::Bytes(_), FieldModel::Bytes(_)) => true,
        (FieldModel::Bool(_), FieldModel::Bool(_)) => true,
        (FieldModel::F32(_), FieldModel::F32(_)) => true,
        (FieldModel::F64(_), FieldModel::F64(_)) => true,
        _ => false,
    }
}

/// The natural order of two fields of the same variant: numeric for
/// integers, `false` before `true`, lexicographic on the payload bytes for
/// strings and byte sequences, and the NaN-aware total order for floats.
/// Fields of different variants are not comparable; this function returns
/// `Equal` for them, but every caller rules that case out.
pub open spec fn spec_cmp_field(a: FieldModel, b: FieldModel) -> Ordering {
    match (a, b) {
        (FieldModel::U8(x), FieldModel::U8(y)) => int_cmp(x as int, y as int),
        (FieldModel::U16(x), FieldModel::U16(y)) => int_cmp(x as int, y as int),
        (FieldModel::U32(x), FieldModel::U32(y)) => int_cmp(x as int, y as int),
        (FieldModel::U64(x), FieldModel::U64(y)) => int_cmp(x as int, y as int),
        (FieldModel::U128(x), FieldModel::U128(y)) => int_cmp(x as int, y as int),
        (FieldModel::I32(x), FieldModel::I32(y)) => int_cmp(x as int, y as int),
        (FieldModel::I64(x), FieldModel::I64(y)) => int_cmp(x as int, y as int),
        (FieldModel::Str(x), FieldModel::Str(y)) => lex_cmp(
            vstd::utf8::encode_utf8(x),
            vstd::utf8::encode_utf8(y),
        ),
        (FieldModel::Bytes(x), FieldModel::Bytes(y)) => lex_cmp(x, y),
        (FieldModel::Bool(x), FieldModel::Bool(y)) => int_cmp(bool_int(x), bool_int(y)),
        (FieldModel::F32(x), FieldModel::F32(y)) => f32_cmp(x, y),
        (FieldModel::F64(x), FieldModel::F64(y)) => f64_cmp(x, y),
        _ => Ordering::Equal,
    }
}

/// The comparator's walk from schema index `i` on, over the field models
/// that remain on each side. `rev` records a `Reverse` entry already seen;
/// it swaps the operands of the next field's comparison and is reset after
/// it. The first non-equal field decides; if every field compares equal the
/// result is `Equal`.
pub open spec fn spec_compare_rest(
    ts: Seq<DecodeType>,
    i: int,
    a: Seq<FieldModel>,
    b: Seq<FieldModel>,
    rev: bool,
) -> Ordering
    decreases ts.len() - i,
{
    if i < 0 || i >= ts.len() {
        Ordering::Equal
    } else if ts[i] is Reverse {
        spec_compare_rest(ts, i + 1, a, b, true)
    } else {
        let c = if rev {
            spec_cmp_field(b[0], a[0])
        } else {
            spec_cmp_field(a[0], b[0])
        };
        if c == Ordering::Equal {
            spec_compare_rest(ts, i + 1, a.drop_first(), b.drop_first(), false)
        } else {
            c
        }
    }
}

/// The field-wise, reverse-aware order of two compound keys under a schema.
pub open spec fn spec_compare(
    ts: Seq<DecodeType>,
    a: Seq<FieldModel>,
    b: Seq<FieldModel>,
) -> Ordering {
    spec_compare_rest(ts, 0, a, b, false)
}

fn cmp_u128(x: u128, y: u128) -> (r: Ordering)
    ensures
        r == int_cmp(x as int, y as int),
{
    if x < y {
        Ordering::Less
    } else if x == y {
        Ordering::Equal
    } else {
        Ordering::Greater
    }
}

fn cmp_i128(x: i128, y: i128) -> (r: Ordering)
    ensures
        r == int_cmp(x as int, y as int),
{
    if x < y {
        Ordering::Less
    } else if x == y {
        Ordering::Equal
    } else {
        Ordering::Greater
    }
}

fn lex_cmp_bytes(a: &[u8], b: &[u8]) -> (r: Ordering)
    ensures
        r == lex_cmp(a@, b@),
{
    let an = a.len();
    let bn = b.len();
    let mut i: usize = 0;
    proof {
        assert(a@.skip(0) =~= a@);
        assert(b@.skip(0) =~= b@);
    }
    while i < an && i < bn
        invariant
            i <= an,
            i <= bn,
            an == a@.len(),
            bn == b@.len(),
            lex_cmp(a@, b@) == lex_cmp(a@.skip(i as int), b@.skip(i as int)),
        decreases an - i,
    {
        let x = a[i];
        let y = b[i];
        if x < y {
            return Ordering::Less;
        }
        if x > y {
            return Ordering::Greater;
        }
        proof {
            assert(a@.skip(i as int).drop_first() =~= a@.skip(i as int + 1));
            assert(b@.skip(i as int).drop_first() =~= b@.skip(i as int + 1));
        }
        i += 1;
    }
    if an == bn {
        Ordering::Equal
    } else if an < bn {
        Ordering::Less
    } else {
        Ordering::Greater
    }
}

/// The natural order of two fields of the same variant, computed at the
/// value level.
fn cmp_field(a: &EncodeType, b: &EncodeType) -> (r: Ordering)
    requires
        same_variant(a.model(), b.model()),
    ensures
        r == spec_cmp_field(a.model(), b.model()),
{
    match (a, b) {
        (EncodeType::SortU8(x), EncodeType::SortU8(y)) => cmp_u128(*x as u128, *y as u128),
        (EncodeType::SortU16(x), EncodeType::SortU16(y)) => cmp_u128(*x as u128, *y as u128),
        (EncodeType::SortU32(x), EncodeType::SortU32(y)) => cmp_u128(*x as u128, *y as u128),
        (EncodeType::SortU64(x), EncodeType::SortU64(y)) => cmp_u128(*x as u128, *y as u128),
        (EncodeType::SortU128(x), EncodeType::SortU128(y)) => cmp_u128(*x, *y),
        (EncodeType::SortI32(x), EncodeType::SortI32(y)) => cmp_i128(*x as i128, *y as i128),
        (EncodeType::SortI64(x), EncodeType::SortI64(y)) => cmp_i128(*x as i128, *y as i128),
        (EncodeType::SortString(x), EncodeType::SortString(y)) => {
            let xb = x.as_str().as_bytes_vec();
            let yb = y.as_str().as_bytes_vec();
            lex_cmp_bytes(xb.as_slice(), yb.as_slice())
        },
        (EncodeType::SortBytes(x), EncodeType::SortBytes(y)) => lex_cmp_bytes(
            x.as_slice(),
            y.as_slice(),
        ),
        (EncodeType::SortBool(x), EncodeType::SortBool(y)) => cmp_u128(
            if *x {
                1
            } else {
                0
            },
            if *y {
                1
            } else {
                0
            },
        ),
        (EncodeType::SortF32(x), EncodeType::SortF32(y)) => x.compare(y),
        (EncodeType::SortF64(x), EncodeType::SortF64(y)) => x.compare(y),
        _ => vstd::pervasive::unreached(),
    }
}

/// Compares two already-decoded compound keys under a schema: fields are
/// compared strictly in schema order at logical field positions, a `Reverse`
/// entry swaps the operands of the single next comparison, the first
/// non-equal field decides, and two keys whose fields all compare equal are
/// `Equal`. Both keys must match the schema's shape: a variant mismatch is a
/// schema-consistency error on the caller's side, not a data condition.
pub fn compare(the_types: &Vec<DecodeType>, key1: &[EncodeType], key2: &[EncodeType]) -> (r:
    Ordering)
    requires
        shape_ok(the_types@, models(key1@)),
        shape_ok(the_types@, models(key2@)),
    ensures
        r == spec_compare(the_types@, models(key1@), models(key2@)),
{
    let ghost ts = the_types@;
    let ghost ma = models(key1@);
    let ghost mb = models(key2@);
    proof {
        assert(ma.skip(0) =~= ma);
        assert(mb.skip(0) =~= mb);
    }
    let k1n = key1.len();
    let mut pos: usize = 0;
    let mut is_reverse = false;
    let n = the_types.len();
    let mut i: usize = 0;
    while i < n
        invariant
            ts == the_types@,
            ma == models(key1@),
            mb == models(key2@),
            n == ts.len(),
            i <= n,
            k1n == ma.len(),
            pos <= ma.len(),
            pos <= mb.len(),
            shape_rest(ts, i as int, ma.skip(pos as int)),
            shape_rest(ts, i as int, mb.skip(pos as int)),
            spec_compare(ts, ma, mb) == spec_compare_rest(
                ts,
                i as int,
                ma.skip(pos as int),
                mb.skip(pos as int),
                is_reverse,
            ),
        decreases n - i,
    {
        let the_type = the_types[i];
        if matches!(the_type, DecodeType::Reverse) {
            is_reverse = true;
            i += 1;
            continue ;
        }
        proof {
            assert(ma.skip(pos as int)[0] == ma[pos as int]);
            assert(mb.skip(pos as int)[0] == mb[pos as int]);
            lemma_variants_comparable(ts[i as int], ma[pos as int], mb[pos as int]);
        }
        let result = if is_reverse {
            cmp_field(slice_index_get(key2, pos), slice_index_get(key1, pos))
        } else {
            cmp_field(slice_index_get(key1, pos), slice_index_get(key2, pos))
        };
        if !matches!(result, Ordering::Equal) {
            return result;
        }
        proof {
            assert(ma.skip(pos as int).drop_first() =~= ma.skip(pos as int + 1));
            assert(mb.skip(pos as int).drop_first() =~= mb.skip(pos as int + 1));
        }
        pos += 1;
        is_reverse = false;
        i += 1;
    }
    Ordering::Equal
}

/// Two fields whose variants both match one non-`Reverse` descriptor are the
/// same variant, so they are comparable.
pub proof fn lemma_variants_comparable(t: DecodeType, a: FieldModel, b: FieldModel)
    requires
        !(t is Reverse),
        variant_matches(t, a),
        variant_matches(t, b),
    ensures
        same_variant(a, b),
{
}

/// Compares two encoded compound keys under a schema: decodes both sides
/// (skipping `Reverse` entries) and then compares the decoded field
/// sequences. This is the byte-level comparator a sorted store registers for
/// ordering the keys it holds; both byte strings must decode under the
/// schema.
pub fn compare_bytes(the_types: &Vec<DecodeType>, key1: &[u8], key2: &[u8]) -> (r: Ordering)
    requires
        spec_decode_seq(key1@, the_types@, 0, 0) is Ok,
        spec_decode_seq(key2@, the_types@, 0, 0) is Ok,
    ensures
        r == spec_compare(
            the_types@,
            spec_decode_seq(key1@, the_types@, 0, 0)->Ok_0.0,
            spec_decode_seq(key2@, the_types@, 0, 0)->Ok_0.0,
        ),
{
    let decoded_key1 = match decode_byte_array(key1, the_types) {
        Ok(v) => v,
        Err(_) => vstd::pervasive::unreached(),
    };
    let decoded_key2 = match decode_byte_array(key2, the_types) {
        Ok(v) => v,
        Err(_) => vstd::pervasive::unreached(),
    };
    proof {
        crate::keys::lemma_decoded_shape(key1@, the_types@, 0, 0);
        crate::keys::lemma_decoded_shape(key2@, the_types@, 0, 0);
    }
    compare(the_types, decoded_key1.as_slice(), decoded_key2.as_slice())
}

/// The opposite of an ordering.
pub open spec fn flip(o: Ordering) -> Ordering {
    match o {
        Ordering::Less => Ordering::Greater,
        Ordering::Equal => Ordering::Equal,
        Ordering::Greater => Ordering::Less,
    }
}

proof fn lemma_lex_refl(s: Seq<u8>)
    ensures
        lex_cmp(s, s) == Ordering::Equal,
    decreases s.len(),
{
    if s.len() > 0 {
        lemma_lex_refl(s.drop_first());
    }
}

proof fn lemma_lex_antisym(a: Seq<u8>, b: Seq<u8>)
    ensures
        lex_cmp(a, b) == flip(lex_cmp(b, a)),
    decreases a.len(),
{
    if a.len() > 0 && b.len() > 0 && a[0] == b[0] {
        lemma_lex_antisym(a.drop_first(), b.drop_first());
    }
}

proof fn lemma_lex_equal_is_eq(a: Seq<u8>, b: Seq<u8>)
    requires
        lex_cmp(a, b) == Ordering::Equal,
    ensures
        a == b,
    decreases a.len(),
{
    if a.len() == 0 && b.len() == 0 {
        assert(a =~= b);
    } else if a.len() > 0 && b.len() > 0 {
        lemma_lex_equal_is_eq(a.drop_first(), b.drop_first());
        assert(a =~= b) by {
            assert forall|k: int| 0 <= k < a.len() implies a[k] == b[k] by {
                if k > 0 {
                    assert(a[k] == a.drop_first()[k - 1]);
                    assert(b[k] == b.drop_first()[k - 1]);
                }
            }
        }
    }
}

proof fn lemma_lex_trans(a: Seq<u8>, b: Seq<u8>, c: Seq<u8>)
    requires
        lex_cmp(a, b) == Ordering::Less,
        lex_cmp(b, c) == Ordering::Less,
    ensures
        lex_cmp(a, c) == Ordering::Less,
    decreases a.len(),
{
    if a.len() > 0 && b.len() > 0 && c.len() > 0 && a[0] == b[0] && b[0] == c[0] {
        lemma_lex_trans(a.drop_first(), b.drop_first(), c.drop_first());
    }
}

/// The natural per-field order compares a value to itself as `Equal`.
pub proof fn lemma_cmp_field_refl(a: FieldModel)
    ensures
        spec_cmp_field(a, a) == Ordering::Equal,
{
    match a {
        FieldModel::Str(x) => lemma_lex_refl(vstd::utf8::encode_utf8(x)),
        FieldModel::Bytes(x) => lemma_lex_refl(x),
        _ => {},
    }
}

/// The natural per-field order is antisymmetric: swapping the operands
/// flips the result.
pub proof fn lemma_cmp_field_antisym(a: FieldModel, b: FieldModel)
    ensures
        spec_cmp_field(a, b) == flip(spec_cmp_field(b, a)),
{
    match (a, b) {
        (FieldModel::Str(x), FieldModel::Str(y)) => lemma_lex_antisym(
            vstd::utf8::encode_utf8(x),
            vstd::utf8::encode_utf8(y),
        ),
        (FieldModel::Bytes(x), FieldModel::Bytes(y)) => lemma_lex_antisym(x, y),
        _ => {},
    }
}

/// The natural per-field order is transitive in its strict part.
pub proof fn lemma_cmp_field_trans(a: FieldModel, b: FieldModel, c: FieldModel)
    requires
        spec_cmp_field(a, b) == Ordering::Less,
        spec_cmp_field(b, c) == Ordering::Less,
    ensures
        spec_cmp_field(a, c) == Ordering::Less,
{
    match (a, b, c) {
        (FieldModel::Str(x), FieldModel::Str(y), FieldModel::Str(z)) => lemma_lex_trans(
            vstd::utf8::encode_utf8(x),
            vstd::utf8::encode_utf8(y),
            vstd::utf8::encode_utf8(z),
        ),
        (FieldModel::Bytes(x), FieldModel::Bytes(y), FieldModel::Bytes(z)) => lemma_lex_trans(
            x,
            y,
            z,
        ),
        _ => {},
    }
}

/// `Equal` fields of one variant are interchangeable as the left operand of
/// the per-field order: `Equal` is a congruence.
pub proof fn lemma_cmp_field_equal_congruent(a: FieldModel, b: FieldModel, c: FieldModel)
    requires
        same_variant(a, b),
        spec_cmp_field(a, b) == Ordering::Equal,
    ensures
        spec_cmp_field(a, c) == spec_cmp_field(b, c),
{
    match (a, b) {
        (FieldModel::Str(x), FieldModel::Str(y)) => lemma_lex_equal_is_eq(
            vstd::utf8::encode_utf8(x),
            vstd::utf8::encode_utf8(y),
        ),
        (FieldModel::Bytes(x), FieldModel::Bytes(y)) => lemma_lex_equal_is_eq(x, y),
        _ => {},
    }
}

/// The per-field comparison the walk makes at one field: the operands are
/// swapped when a `Reverse` entry is pending.
pub open spec fn cmp_dir(x: FieldModel, y: FieldModel, rev: bool) -> Ordering {
    if rev {
        spec_cmp_field(y, x)
    } else {
        spec_cmp_field(x, y)
    }
}

proof fn lemma_dir_trans(x: FieldModel, y: FieldModel, z: FieldModel, rev: bool)
    requires
        cmp_dir(x, y, rev) == Ordering::Less,
        cmp_dir(y, z, rev) == Ordering::Less,
    ensures
        cmp_dir(x, z, rev) == Ordering::Less,
{
    if rev {
        lemma_cmp_field_trans(z, y, x);
    } else {
        lemma_cmp_field_trans(x, y, z);
    }
}

proof fn lemma_same_variant_sym(a: FieldModel, b: FieldModel)
    ensures
        same_variant(a, b) == same_variant(b, a),
{
}

proof fn lemma_dir_eq_left(x: FieldModel, y: FieldModel, z: FieldModel, rev: bool)
    requires
        same_variant(x, y),
        cmp_dir(x, y, rev) == Ordering::Equal,
    ensures
        cmp_dir(x, z, rev) == cmp_dir(y, z, rev),
{
    if rev {
        lemma_same_variant_sym(x, y);
        lemma_cmp_field_equal_congruent(y, x, z);
        lemma_cmp_field_antisym(z, x);
        lemma_cmp_field_antisym(z, y);
    } else {
        lemma_cmp_field_equal_congruent(x, y, z);
    }
}

proof fn lemma_dir_eq_right(x: FieldModel, y: FieldModel, z: FieldModel, rev: bool)
    requires
        same_variant(y, z),
        cmp_dir(y, z, rev) == Ordering::Equal,
    ensures
        cmp_dir(x, y, rev) == cmp_dir(x, z, rev),
{
    if rev {
        lemma_same_variant_sym(y, z);
        lemma_cmp_field_equal_congruent(z, y, x);
    } else {
        lemma_cmp_field_equal_congruent(y, z, x);
        lemma_cmp_field_antisym(x, y);
        lemma_cmp_field_antisym(x, z);
    }
}

proof fn lemma_compare_rest_refl(ts: Seq<DecodeType>, i: int, a: Seq<FieldModel>, rev: bool)
    ensures
        spec_compare_rest(ts, i, a, a, rev) == Ordering::Equal,
    decreases ts.len() - i,
{
    if i < 0 || i >= ts.len() {
    } else if ts[i] is Reverse {
        lemma_compare_rest_refl(ts, i + 1, a, true);
    } else {
        lemma_cmp_field_refl(a[0]);
        lemma_compare_rest_refl(ts, i + 1, a.drop_first(), false);
    }
}

proof fn lemma_compare_rest_antisym(
    ts: Seq<DecodeType>,
    i: int,
    a: Seq<FieldModel>,
    b: Seq<FieldModel>,
    rev: bool,
)
    ensures
        spec_compare_rest(ts, i, a, b, rev) == flip(spec_compare_rest(ts, i, b, a, rev)),
    decreases ts.len() - i,
{
    if i < 0 || i >= ts.len() {
    } else if ts[i] is Reverse {
        lemma_compare_rest_antisym(ts, i + 1, a, b, true);
    } else {
        lemma_cmp_field_antisym(a[0], b[0]);
        lemma_compare_rest_antisym(ts, i + 1, a.drop_first(), b.drop_first(), false);
    }
}

proof fn lemma_compare_rest_congruent(
    ts: Seq<DecodeType>,
    i: int,
    a: Seq<FieldModel>,
    b: Seq<FieldModel>,
    c: Seq<FieldModel>,
    rev: bool,
)
    requires
        0 <= i,
        shape_rest(ts, i, a),
        shape_rest(ts, i, b),
        spec_compare_rest(ts, i, a, b, rev) == Ordering::Equal,
    ensures
        spec_compare_rest(ts, i, a, c, rev) == spec_compare_rest(ts, i, b, c, rev),
    decreases ts.len() - i,
{
    if i >= ts.len() {
    } else if ts[i] is Reverse {
        lemma_compare_rest_congruent(ts, i + 1, a, b, c, true);
    } else {
        lemma_variants_comparable(ts[i], a[0], b[0]);
        lemma_dir_eq_left(a[0], b[0], c[0], rev);
        lemma_compare_rest_congruent(
            ts,
            i + 1,
            a.drop_first(),
            b.drop_first(),
            c.drop_first(),
            false,
        );
    }
}

proof fn lemma_compare_rest_trans(
    ts: Seq<DecodeType>,
    i: int,
    a: Seq<FieldModel>,
    b: Seq<FieldModel>,
    c: Seq<FieldModel>,
    rev: bool,
)
    requires
        0 <= i,
        shape_rest(ts, i, a),
        shape_rest(ts, i, b),
        shape_rest(ts, i, c),
        spec_compare_rest(ts, i, a, b, rev) == Ordering::Less,
        spec_compare_rest(ts, i, b, c, rev) == Ordering::Less,
    ensures
        spec_compare_rest(ts, i, a, c, rev) == Ordering::Less,
    decreases ts.len() - i,
{
    if i >= ts.len() {
    } else if ts[i] is Reverse {
        lemma_compare_rest_trans(ts, i + 1, a, b, c, true);
    } else {
        let cab = cmp_dir(a[0], b[0], rev);
        let cbc = cmp_dir(b[0], c[0], rev);
        lemma_variants_comparable(ts[i], a[0], b[0]);
        lemma_variants_comparable(ts[i], b[0], c[0]);
        if cab == Ordering::Less {
            if cbc == Ordering::Less {
                lemma_dir_trans(a[0], b[0], c[0], rev);
            } else {
                lemma_dir_eq_right(a[0], b[0], c[0], rev);
            }
        } else {
            lemma_dir_eq_left(a[0], b[0], c[0], rev);
            if cbc == Ordering::Equal {
                lemma_compare_rest_trans(
                    ts,
                    i + 1,
                    a.drop_first(),
                    b.drop_first(),
                    c.drop_first(),
                    false,
                );
            }
        }
    }
}

/// Reflexivity: under every schema, a key compares `Equal` to itself.
pub proof fn lemma_compare_values_reflexive(ts: Seq<DecodeType>, a: Seq<FieldModel>)
    ensures
        spec_compare(ts, a, a) == Ordering::Equal,
{
    lemma_compare_rest_refl(ts, 0, a, false);
}

/// Antisymmetry: under every schema, with or without `Reverse` entries,
/// exchanging the two keys flips the comparator's answer, so `a < b` exactly
/// when `b > a`.
pub proof fn lemma_compare_values_antisymmetric(
    ts: Seq<DecodeType>,
    a: Seq<FieldModel>,
    b: Seq<FieldModel>,
)
    ensures
        spec_compare(ts, a, b) == flip(spec_compare(ts, b, a)),
{
    lemma_compare_rest_antisym(ts, 0, a, b, false);
}

/// Transitivity: under every schema, across every triple of keys that match
/// the schema's shape, `a < b` and `b < c` give `a < c`.
pub proof fn lemma_compare_values_transitive(
    ts: Seq<DecodeType>,
    a: Seq<FieldModel>,
    b: Seq<FieldModel>,
    c: Seq<FieldModel>,
)
    requires
        shape_ok(ts, a),
        shape_ok(ts, b),
        shape_ok(ts, c),
        spec_compare(ts, a, b) == Ordering::Less,
        spec_compare(ts, b, c) == Ordering::Less,
    ensures
        spec_compare(ts, a, c) == Ordering::Less,
{
    lemma_compare_rest_trans(ts, 0, a, b, c, false);
}

/// Congruence of `Equal`: two keys the comparator calls `Equal` order the
/// same way against every third key, so `Equal` behaves as an equivalence
/// inside the total order.
pub proof fn lemma_compare_values_equal_congruent(
    ts: Seq<DecodeType>,
    a: Seq<FieldModel>,
    b: Seq<FieldModel>,
    c: Seq<FieldModel>,
)
    requires
        shape_ok(ts, a),
        shape_ok(ts, b),
        spec_compare(ts, a, b) == Ordering::Equal,
    ensures
        spec_compare(ts, a, c) == spec_compare(ts, b, c),
{
    lemma_compare_rest_congruent(ts, 0, a, b, c, false);
}

/// Byte-level equivalence: comparing the encodings of two field sequences
/// with the byte comparator is exactly the value-level comparison of the
/// sequences, for every schema whose shape both sequences match.
pub proof fn lemma_compare_bytes_equivalent(
    ts: Seq<DecodeType>,
    a: Seq<FieldModel>,
    b: Seq<FieldModel>,
)
    requires
        shape_ok(ts, a),
        shape_ok(ts, b),
        crate::keys::all_fields_encodable(a),
        crate::keys::all_fields_encodable(b),
    ensures
        spec_decode_seq(crate::keys::spec_encode_models(a), ts, 0, 0) is Ok,
        spec_decode_seq(crate::keys::spec_encode_models(b), ts, 0, 0) is Ok,
        spec_compare(
            ts,
            spec_decode_seq(crate::keys::spec_encode_models(a), ts, 0, 0)->Ok_0.0,
            spec_decode_seq(crate::keys::spec_encode_models(b), ts, 0, 0)->Ok_0.0,
        ) == spec_compare(ts, a, b),
{
    crate::keys::lemma_decode_encode_roundtrip(ts, a);
    crate::keys::lemma_decode_encode_roundtrip(ts, b);
}

} // verus!
