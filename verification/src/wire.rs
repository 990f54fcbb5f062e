//! Big-endian byte encodings of unsigned integers: the wire form shared by
//! every fixed-width field and by the length prefixes of variable-width
//! fields. Multi-byte values are stored most significant byte first, so that
//! the byte-wise order of two equal-width unsigned encodings agrees with the
//! numeric order of the values.

use vstd::prelude::*;

verus! {

/// 256 raised to the given power: the number of distinct values an `n`-byte
/// big-endian encoding can hold.
pub open spec fn pow256(n: nat) -> nat
    decreases n,
{
    if n == 0 {
        1
    } else {
        256 * pow256((n - 1) as nat)
    }
}

/// The `n`-byte big-endian encoding of `v`: the low `n` base-256 digits of
/// `v`, most significant first.
pub open spec fn be_bytes(v: nat, n: nat) -> Seq<u8>
    decreases n,
{
    if n == 0 {
        Seq::empty()
    } else {
        be_bytes(v / 256, (n - 1) as nat).push((v % 256) as u8)
    }
}

/// The value of a big-endian byte sequence.
pub open spec fn be_value(s: Seq<u8>) -> nat
    decreases s.len(),
{
    if s.len() == 0 {
        0
    } else {
        be_value(s.drop_last()) * 256 + (s.last() as nat)
    }
}

pub proof fn lemma_be_bytes_len(v: nat, n: nat)
    ensures
        be_bytes(v, n).len() == n,
    decreases n,
{
    if n > 0 {
        lemma_be_bytes_len(v / 256, (n - 1) as nat);
    }
}

pub proof fn lemma_be_value_bound(s: Seq<u8>)
    ensures
        be_value(s) < pow256(s.len()),
    decreases s.len(),
{
    if s.len() > 0 {
        lemma_be_value_bound(s.drop_last());
        vstd::arithmetic::mul::lemma_mul_inequality(
            be_value(s.drop_last()) as int,
            pow256((s.len() - 1) as nat) as int - 1,
            256,
        );
    }
}

/// Decoding inverts encoding: an `n`-byte big-endian encoding of a value
/// below `pow256(n)` reads back as that value.
pub proof fn lemma_be_value_of_be_bytes(v: nat, n: nat)
    requires
        v < pow256(n),
    ensures
        be_value(be_bytes(v, n)) == v,
    decreases n,
{
    if n > 0 {
        let w = be_bytes(v / 256, (n - 1) as nat);
        lemma_be_bytes_len(v / 256, (n - 1) as nat);
        assert(be_bytes(v, n).drop_last() =~= w);
        vstd::arithmetic::div_mod::lemma_fundamental_div_mod(v as int, 256);
        assert(v / 256 < pow256((n - 1) as nat));
        lemma_be_value_of_be_bytes(v / 256, (n - 1) as nat);
    }
}

/// Writes the low `n` bytes of `x`, most significant first.
pub fn be_encode(x: u128, n: usize) -> (r: Vec<u8>)
    ensures
        r@ == be_bytes(x as nat, n as nat),
    decreases n,
{
    if n == 0 {
        Vec::new()
    } else {
        let mut r = be_encode(x / 256, n - 1);
        r.push((x % 256) as u8);
        r
    }
}

/// Reads `n` bytes at `pos` as a big-endian value.
pub fn be_decode(data: &[u8], pos: usize, n: usize) -> (r: u128)
    requires
        n <= 16,
        pos + n <= data@.len(),
    ensures
        r as nat == be_value(data@.subrange(pos as int, (pos + n) as int)),
    decreases n,
{
    if n == 0 {
        assert(data@.subrange(pos as int, pos as int) =~= Seq::<u8>::empty());
        0
    } else {
        let len = data.len();
        let hi = be_decode(data, pos, n - 1);
        let b = data[pos + n - 1];
        proof {
            let whole = data@.subrange(pos as int, (pos + n) as int);
            let head = data@.subrange(pos as int, (pos + n - 1) as int);
            assert(whole.drop_last() =~= head);
            assert(whole.last() == data@[pos + n - 1]);
            lemma_be_value_bound(head);
            lemma_pow256_increases(head.len(), 15);
            assert(pow256(15) * 256 == pow256(16)) by {
                reveal_with_fuel(pow256, 17);
            }
            assert(pow256(16) == 0x100000000000000000000000000000000) by {
                reveal_with_fuel(pow256, 17);
            }
            vstd::arithmetic::mul::lemma_mul_inequality(
                hi as int,
                pow256(15) as int - 1,
                256,
            );
        }
        hi * 256 + (b as u128)
    }
}

/// The widths this codec uses, as value bounds.
pub proof fn lemma_pow256_values()
    ensures
        pow256(1) == 0x100,
        pow256(2) == 0x1_0000,
        pow256(4) == 0x1_0000_0000,
        pow256(8) == 0x1_0000_0000_0000_0000,
        pow256(16) == 0x1_0000_0000_0000_0000_0000_0000_0000_0000,
{
    reveal_with_fuel(pow256, 17);
}

pub proof fn lemma_pow256_increases(m: nat, n: nat)
    requires
        m <= n,
    ensures
        pow256(m) <= pow256(n),
    decreases n,
{
    if m < n {
        lemma_pow256_increases(m, (n - 1) as nat);
        vstd::arithmetic::mul::lemma_mul_inequality(1, 256, pow256((n - 1) as nat) as int);
    }
}

} // verus!
