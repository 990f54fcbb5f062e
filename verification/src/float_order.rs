//! Float fields held as IEEE-754 bit patterns, with a total order.
//!
//! Plain IEEE comparison is not a total order: NaN is unordered with every
//! value, including itself. A sort-key component needs a total, reflexive,
//! transitive, antisymmetric order, so these wrappers compare by the policy
//! that two NaNs are equal and a NaN is below every non-NaN value, with
//! non-NaN values in numeric order.
//!
//! A value is carried as its raw bit pattern, which is what the codec writes
//! to and reads from the wire; the numeric order of non-NaN values is
//! recovered from the bits alone (sign bit plus magnitude), so no
//! floating-point arithmetic is involved anywhere.

use std::cmp::Ordering;
use vstd::prelude::*;

verus! {

/// True when the single-precision bit pattern is a NaN: exponent bits all
/// ones and mantissa nonzero.
pub open spec fn f32_is_nan(bits: u32) -> bool {
    (bits >> 23) & 0xff == 0xff && bits & 0x7fffff != 0
}

/// True when the double-precision bit pattern is a NaN.
pub open spec fn f64_is_nan(bits: u64) -> bool {
    (bits >> 52) & 0x7ff == 0x7ff && bits & 0xf_ffff_ffff_ffff != 0
}

/// A signed key that orders non-NaN single-precision bit patterns by numeric
/// value: the magnitude bits, negated when the sign bit is set. For
/// non-negative IEEE-754 values the magnitude bits grow with the value, and
/// for negative values they grow with the absolute value, so this key is
/// monotone in the numeric order; both zeroes map to 0, so `-0.0` and `+0.0`
/// compare equal.
pub open spec fn f32_sort_key(bits: u32) -> int {
    if bits >> 31 == 0 {
        (bits & 0x7fffffff) as int
    } else {
        -((bits & 0x7fffffff) as int)
    }
}

/// The double-precision counterpart of [`f32_sort_key`].
pub open spec fn f64_sort_key(bits: u64) -> int {
    if bits >> 63 == 0 {
        (bits & 0x7fff_ffff_ffff_ffff) as int
    } else {
        -((bits & 0x7fff_ffff_ffff_ffff) as int)
    }
}

/// The total order on single-precision bit patterns: two NaNs are equal, a
/// NaN is below every non-NaN value, and non-NaN values compare by numeric
/// order.
pub open spec fn f32_cmp(a: u32, b: u32) -> Ordering {
    if f32_is_nan(a) && f32_is_nan(b) {
        Ordering::Equal
    } else if f32_is_nan(a) {
        Ordering::Less
    } else if f32_is_nan(b) {
        Ordering::Greater
    } else if f32_sort_key(a) < f32_sort_key(b) {
        Ordering::Less
    } else if f32_sort_key(a) == f32_sort_key(b) {
        Ordering::Equal
    } else {
        Ordering::Greater
    }
}

/// The total order on double-precision bit patterns; see [`f32_cmp`].
pub open spec fn f64_cmp(a: u64, b: u64) -> Ordering {
    if f64_is_nan(a) && f64_is_nan(b) {
        Ordering::Equal
    } else if f64_is_nan(a) {
        Ordering::Less
    } else if f64_is_nan(b) {
        Ordering::Greater
    } else if f64_sort_key(a) < f64_sort_key(b) {
        Ordering::Less
    } else if f64_sort_key(a) == f64_sort_key(b) {
        Ordering::Equal
    } else {
        Ordering::Greater
    }
}

/// A single-precision float field, held as its IEEE-754 bit pattern and
/// ordered by [`f32_cmp`].
#[derive(Debug, Clone, Copy)]
pub struct F32struct {
    pub bits: u32,
}

/// A double-precision float field, held as its IEEE-754 bit pattern and
/// ordered by [`f64_cmp`].
#[derive(Debug, Clone, Copy)]
pub struct F64struct {
    pub bits: u64,
}

impl F32struct {
    pub fn new(bits: u32) -> (r: Self)
        ensures
            r.bits == bits,
    {
        F32struct { bits }
    }

    /// The total order of [`f32_cmp`], computed from the bits.
    pub fn compare(&self, other: &F32struct) -> (r: Ordering)
        ensures
            r == f32_cmp(self.bits, other.bits),
    {
        let a_nan = (self.bits >> 23) & 0xff == 0xff && self.bits & 0x7fffff != 0;
        let b_nan = (other.bits >> 23) & 0xff == 0xff && other.bits & 0x7fffff != 0;
        if a_nan && b_nan {
            Ordering::Equal
        } else if a_nan {
            Ordering::Less
        } else if b_nan {
            Ordering::Greater
        } else {
            let ka = f32_key_exec(self.bits);
            let kb = f32_key_exec(other.bits);
            if ka < kb {
                Ordering::Less
            } else if ka == kb {
                Ordering::Equal
            } else {
                Ordering::Greater
            }
        }
    }
}

impl F64struct {
    pub fn new(bits: u64) -> (r: Self)
        ensures
            r.bits == bits,
    {
        F64struct { bits }
    }

    /// The total order of [`f64_cmp`], computed from the bits.
    pub fn compare(&self, other: &F64struct) -> (r: Ordering)
        ensures
            r == f64_cmp(self.bits, other.bits),
    {
        let a_nan = (self.bits >> 52) & 0x7ff == 0x7ff && self.bits & 0xf_ffff_ffff_ffff != 0;
        let b_nan = (other.bits >> 52) & 0x7ff == 0x7ff && other.bits & 0xf_ffff_ffff_ffff != 0;
        if a_nan && b_nan {
            Ordering::Equal
        } else if a_nan {
            Ordering::Less
        } else if b_nan {
            Ordering::Greater
        } else {
            let ka = f64_key_exec(self.bits);
            let kb = f64_key_exec(other.bits);
            if ka < kb {
                Ordering::Less
            } else if ka == kb {
                Ordering::Equal
            } else {
                Ordering::Greater
            }
        }
    }
}

fn f32_key_exec(bits: u32) -> (r: i64)
    ensures
        r as int == f32_sort_key(bits),
{
    let mag = (bits & 0x7fffffff) as i64;
    if bits >> 31 == 0 {
        mag
    } else {
        -mag
    }
}

fn f64_key_exec(bits: u64) -> (r: i128)
    ensures
        r as int == f64_sort_key(bits),
{
    proof {
        assert(bits & 0x7fff_ffff_ffff_ffff <= 0x7fff_ffff_ffff_ffff) by (bit_vector);
    }
    let mag = (bits & 0x7fff_ffff_ffff_ffff) as i128;
    if bits >> 63 == 0 {
        mag
    } else {
        -mag
    }
}

impl PartialEq for F32struct {
    fn eq(&self, other: &Self) -> (r: bool) {
        matches!(self.compare(other), Ordering::Equal)
    }
}

impl vstd::std_specs::cmp::PartialEqSpecImpl for F32struct {
    open spec fn obeys_eq_spec() -> bool {
        true
    }

    open spec fn eq_spec(&self, other: &Self) -> bool {
        f32_cmp(self.bits, other.bits) == Ordering::Equal
    }
}

impl PartialOrd for F32struct {
    fn partial_cmp(&self, other: &Self) -> (r: Option<Ordering>) {
        Some(self.compare(other))
    }
}

impl vstd::std_specs::cmp::PartialOrdSpecImpl for F32struct {
    open spec fn obeys_partial_cmp_spec() -> bool {
        true
    }

    open spec fn partial_cmp_spec(&self, other: &Self) -> Option<Ordering> {
        Some(f32_cmp(self.bits, other.bits))
    }
}

impl PartialEq for F64struct {
    fn eq(&self, other: &Self) -> (r: bool) {
        matches!(self.compare(other), Ordering::Equal)
    }
}

impl vstd::std_specs::cmp::PartialEqSpecImpl for F64struct {
    open spec fn obeys_eq_spec() -> bool {
        true
    }

    open spec fn eq_spec(&self, other: &Self) -> bool {
        f64_cmp(self.bits, other.bits) == Ordering::Equal
    }
}

impl PartialOrd for F64struct {
    fn partial_cmp(&self, other: &Self) -> (r: Option<Ordering>) {
        Some(self.compare(other))
    }
}

impl vstd::std_specs::cmp::PartialOrdSpecImpl for F64struct {
    open spec fn obeys_partial_cmp_spec() -> bool {
        true
    }

    open spec fn partial_cmp_spec(&self, other: &Self) -> Option<Ordering> {
        Some(f64_cmp(self.bits, other.bits))
    }
}

/// Two NaN-valued single-precision fields compare equal, and a NaN compares
/// below every non-NaN value (in particular below every finite value).
pub proof fn lemma_f32_nan_order(a: u32, b: u32)
    ensures
        f32_is_nan(a) && f32_is_nan(b) ==> f32_cmp(a, b) == Ordering::Equal,
        f32_is_nan(a) && !f32_is_nan(b) ==> f32_cmp(a, b) == Ordering::Less,
        !f32_is_nan(a) && f32_is_nan(b) ==> f32_cmp(a, b) == Ordering::Greater,
{
}

/// The double-precision counterpart of [`lemma_f32_nan_order`].
pub proof fn lemma_f64_nan_order(a: u64, b: u64)
    ensures
        f64_is_nan(a) && f64_is_nan(b) ==> f64_cmp(a, b) == Ordering::Equal,
        f64_is_nan(a) && !f64_is_nan(b) ==> f64_cmp(a, b) == Ordering::Less,
        !f64_is_nan(a) && f64_is_nan(b) ==> f64_cmp(a, b) == Ordering::Greater,
{
}

} // verus!
