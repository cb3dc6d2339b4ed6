//! Fixed-width big-endian (network order) integer encodings.

use vstd::prelude::*;

verus! {

/// The 8 bytes of `n`, most significant first.
pub open spec fn be_u64(n: u64) -> Seq<u8> {
    seq![
        ((n >> 56u64) & 0xffu64) as u8,
        ((n >> 48u64) & 0xffu64) as u8,
        ((n >> 40u64) & 0xffu64) as u8,
        ((n >> 32u64) & 0xffu64) as u8,
        ((n >> 24u64) & 0xffu64) as u8,
        ((n >> 16u64) & 0xffu64) as u8,
        ((n >> 8u64) & 0xffu64) as u8,
        (n & 0xffu64) as u8,
    ]
}

/// The 4 bytes of `n`, most significant first.
pub open spec fn be_u32(n: u32) -> Seq<u8> {
    seq![
        ((n >> 24u32) & 0xffu32) as u8,
        ((n >> 16u32) & 0xffu32) as u8,
        ((n >> 8u32) & 0xffu32) as u8,
        (n & 0xffu32) as u8,
    ]
}

/// The integer whose big-endian bytes are `b[0..4]`.
pub open spec fn u32_of_be(b: Seq<u8>) -> u32 {
    ((b[0] as u32) << 24u32) | ((b[1] as u32) << 16u32) | ((b[2] as u32) << 8u32) | (b[3] as u32)
}

/// Distinct integers have distinct encodings.
pub proof fn lemma_be_u64_injective(n: u64, m: u64)
    requires
        be_u64(n) == be_u64(m),
    ensures
        n == m,
{
    let a = be_u64(n);
    let b = be_u64(m);
    assert(a[0] == b[0] && a[1] == b[1] && a[2] == b[2] && a[3] == b[3]);
    assert(a[4] == b[4] && a[5] == b[5] && a[6] == b[6] && a[7] == b[7]);
    assert(((n >> 56u64) & 0xffu64) as u8 == ((m >> 56u64) & 0xffu64) as u8
        && ((n >> 48u64) & 0xffu64) as u8 == ((m >> 48u64) & 0xffu64) as u8
        && ((n >> 40u64) & 0xffu64) as u8 == ((m >> 40u64) & 0xffu64) as u8
        && ((n >> 32u64) & 0xffu64) as u8 == ((m >> 32u64) & 0xffu64) as u8
        && ((n >> 24u64) & 0xffu64) as u8 == ((m >> 24u64) & 0xffu64) as u8
        && ((n >> 16u64) & 0xffu64) as u8 == ((m >> 16u64) & 0xffu64) as u8
        && ((n >> 8u64) & 0xffu64) as u8 == ((m >> 8u64) & 0xffu64) as u8
        && (n & 0xffu64) as u8 == (m & 0xffu64) as u8 ==> n == m) by (bit_vector);
}

/// Decoding the 4-byte encoding of `n` gives `n` back.
pub proof fn lemma_be_u32_round_trip(n: u32)
    ensures
        be_u32(n).len() == 4,
        u32_of_be(be_u32(n)) == n,
{
    let b = be_u32(n);
    assert(b[0] == ((n >> 24u32) & 0xffu32) as u8);
    assert(b[1] == ((n >> 16u32) & 0xffu32) as u8);
    assert(b[2] == ((n >> 8u32) & 0xffu32) as u8);
    assert(b[3] == (n & 0xffu32) as u8);
    assert(((((n >> 24u32) & 0xffu32) as u8 as u32) << 24u32)
        | ((((n >> 16u32) & 0xffu32) as u8 as u32) << 16u32)
        | ((((n >> 8u32) & 0xffu32) as u8 as u32) << 8u32)
        | ((n & 0xffu32) as u8 as u32) == n) by (bit_vector);
}

/// Appends the 8 big-endian bytes of `n`.
pub fn push_u64_be(out: &mut Vec<u8>, n: u64)
    ensures
        final(out)@ == old(out)@ + be_u64(n),
{
    out.push(((n >> 56u64) & 0xffu64) as u8);
    out.push(((n >> 48u64) & 0xffu64) as u8);
    out.push(((n >> 40u64) & 0xffu64) as u8);
    out.push(((n >> 32u64) & 0xffu64) as u8);
    out.push(((n >> 24u64) & 0xffu64) as u8);
    out.push(((n >> 16u64) & 0xffu64) as u8);
    out.push(((n >> 8u64) & 0xffu64) as u8);
    out.push((n & 0xffu64) as u8);
    assert(final(out)@ =~= old(out)@ + be_u64(n));
}

/// Appends the 4 big-endian bytes of `n`.
pub fn push_u32_be(out: &mut Vec<u8>, n: u32)
    ensures
        final(out)@ == old(out)@ + be_u32(n),
{
    out.push(((n >> 24u32) & 0xffu32) as u8);
    out.push(((n >> 16u32) & 0xffu32) as u8);
    out.push(((n >> 8u32) & 0xffu32) as u8);
    out.push((n & 0xffu32) as u8);
    assert(final(out)@ =~= old(out)@ + be_u32(n));
}

/// Reads the big-endian integer stored at `b[at..at + 4]`.
pub fn read_u32_be(b: &[u8], at: usize) -> (r: u32)
    requires
        at + 4 <= b@.len(),
    ensures
        r == u32_of_be(b@.subrange(at as int, at + 4)),
{
    ((b[at] as u32) << 24u32) | ((b[at + 1] as u32) << 16u32) | ((b[at + 2] as u32) << 8u32) | (b[
        at + 3
    ] as u32)
}

} // verus!
