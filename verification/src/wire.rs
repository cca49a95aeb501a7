//! Byte-level helpers shared by the STUN codec: big-endian 16- and 32-bit
//! fields, zero padding to 4-byte alignment, and small lemmas about them.

use vstd::prelude::*;

verus! {

/// Big-endian encoding of a 16-bit value.
pub open spec fn be16(n: u16) -> Seq<u8> {
    seq![(n / 256) as u8, (n % 256) as u8]
}

/// Big-endian encoding of a 32-bit value.
pub open spec fn be32(n: u32) -> Seq<u8> {
    seq![
        (n / 0x1000000) as u8,
        ((n / 0x10000) % 256) as u8,
        ((n / 256) % 256) as u8,
        (n % 256) as u8,
    ]
}

/// The 16-bit value read back from two big-endian bytes.
pub open spec fn be16_val(b0: u8, b1: u8) -> u16 {
    (b0 * 256 + b1) as u16
}

/// The 32-bit value read back from four big-endian bytes.
pub open spec fn be32_val(b0: u8, b1: u8, b2: u8, b3: u8) -> u32 {
    (b0 * 0x1000000 + b1 * 0x10000 + b2 * 256 + b3) as u32
}

pub proof fn lemma_be16_roundtrip(n: u16)
    ensures
        be16_val(be16(n)[0], be16(n)[1]) == n,
{
}

pub proof fn lemma_be32_roundtrip(n: u32)
    ensures
        be32_val(be32(n)[0], be32(n)[1], be32(n)[2], be32(n)[3]) == n,
{
}

/// A sequence of `n` zero bytes.
pub open spec fn zeros(n: nat) -> Seq<u8> {
    Seq::new(n, |i: int| 0u8)
}

/// Bytes of zero padding that carry a length to the next 4-byte boundary.
pub open spec fn pad4(n: nat) -> nat {
    ((4 - n % 4) % 4) as nat
}

/// A length rounded up to the next 4-byte boundary.
pub open spec fn round_up4(n: nat) -> nat {
    n + pad4(n)
}

pub fn push_be16(v: &mut Vec<u8>, n: u16)
    ensures
        final(v)@ == old(v)@ + be16(n),
{
    v.push((n / 256) as u8);
    v.push((n % 256) as u8);
    assert(v@ =~= old(v)@ + be16(n));
}

pub fn push_be32(v: &mut Vec<u8>, n: u32)
    ensures
        final(v)@ == old(v)@ + be32(n),
{
    v.push((n / 0x1000000) as u8);
    v.push(((n / 0x10000) % 256) as u8);
    v.push(((n / 256) % 256) as u8);
    v.push((n % 256) as u8);
    assert(v@ =~= old(v)@ + be32(n));
}

pub fn read_be16(b: &[u8], i: usize) -> (r: u16)
    requires
        i + 2 <= b@.len(),
    ensures
        r == be16_val(b@[i as int], b@[i + 1]),
{
    let b0 = b[i];
    let b1 = b[i + 1];
    b0 as u16 * 256 + b1 as u16
}

pub fn read_be32(b: &[u8], i: usize) -> (r: u32)
    requires
        i + 4 <= b@.len(),
    ensures
        r == be32_val(b@[i as int], b@[i + 1], b@[i + 2], b@[i + 3]),
{
    let b0 = b[i];
    let b1 = b[i + 1];
    let b2 = b[i + 2];
    let b3 = b[i + 3];
    b0 as u32 * 0x1000000 + b1 as u32 * 0x10000 + b2 as u32 * 256 + b3 as u32
}

/// Append `n` zero bytes.
pub fn push_zeros(v: &mut Vec<u8>, n: usize)
    ensures
        final(v)@ == old(v)@ + zeros(n as nat),
{
    let mut k: usize = 0;
    while k < n
        invariant
            k <= n,
            v@ == old(v)@ + zeros(k as nat),
        decreases n - k,
    {
        v.push(0u8);
        assert(v@ =~= old(v)@ + zeros((k + 1) as nat));
        k = k + 1;
    }
}

/// Copy the byte range `[from, to)` out of a slice.
pub fn read_bytes(b: &[u8], from: usize, to: usize) -> (r: Vec<u8>)
    requires
        from <= to <= b@.len(),
    ensures
        r@ == b@.subrange(from as int, to as int),
{
    let mut out: Vec<u8> = Vec::new();
    let mut k: usize = from;
    while k < to
        invariant
            from <= k <= to <= b@.len(),
            out@ == b@.subrange(from as int, k as int),
        decreases to - k,
    {
        out.push(b[k]);
        assert(out@ =~= b@.subrange(from as int, (k + 1) as int));
        k = k + 1;
    }
    out
}

/// XOR of two bytes is an involution.
pub proof fn lemma_xor_involution_u8(a: u8, m: u8)
    ensures
        ((a ^ m) ^ m) == a,
{
    assert(((a ^ m) ^ m) == a) by (bit_vector);
}

/// XOR of two 16-bit values is an involution.
pub proof fn lemma_xor_involution_u16(a: u16, m: u16)
    ensures
        ((a ^ m) ^ m) == a,
{
    assert(((a ^ m) ^ m) == a) by (bit_vector);
}

/// XOR of two 32-bit values is an involution.
pub proof fn lemma_xor_involution_u32(a: u32, m: u32)
    ensures
        ((a ^ m) ^ m) == a,
{
    assert(((a ^ m) ^ m) == a) by (bit_vector);
}

} // verus!
