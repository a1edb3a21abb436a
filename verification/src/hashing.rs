//! Content hashing: the 64-bit non-cryptographic hash used for file and
//! chunk fingerprints, and the canonical byte serialization that a chunk's
//! stable identifier is derived from.

use vstd::prelude::*;

verus! {

/// The 64-bit hash computed by `xxhash_rust::xxh3::xxh3_64`. Its value on
/// given bytes is fixed but not described here; contracts speak of it by
/// this name.
pub uninterp spec fn xxh3(bytes: Seq<u8>) -> u64;

/// Relies on xxhash_rust::xxh3::xxh3_64: the digest depends on the input
/// bytes alone.
#[verifier::external_body]
pub fn xxh3_64(bytes: &[u8]) -> (r: u64)
    ensures
        r == xxh3(bytes@),
{
    xxhash_rust::xxh3::xxh3_64(bytes)
}

/// Byte `i` of the little-endian encoding of `x`.
pub open spec fn le_byte(x: u64, i: int) -> u8 {
    ((x >> (8 * i) as u64) & 0xff) as u8
}

/// The 8-byte little-endian encoding of `x`.
pub open spec fn le_bytes(x: u64) -> Seq<u8> {
    Seq::new(8, |i: int| le_byte(x, i))
}

/// Appends the little-endian encoding of `x` to `out`.
pub fn push_le_bytes(out: &mut Vec<u8>, x: u64)
    ensures
        final(out)@ == old(out)@ + le_bytes(x),
{
    let ghost prefix = out@;
    let mut i: usize = 0;
    while i < 8
        invariant
            i <= 8,
            out@ == prefix + le_bytes(x).take(i as int),
        decreases 8 - i,
    {
        let b: u8 = ((x >> ((8 * i) as u64)) & 0xff) as u8;
        assert(b == le_byte(x, i as int));
        out.push(b);
        assert(prefix + le_bytes(x).take(i as int) + seq![le_byte(x, i as int)]
            =~= prefix + le_bytes(x).take(i as int + 1));
        i = i + 1;
    }
    assert(le_bytes(x).take(8) =~= le_bytes(x));
}

/// Two distinct 64-bit values never share a little-endian encoding.
pub proof fn lemma_le_bytes_injective(a: u64, b: u64)
    requires
        le_bytes(a) == le_bytes(b),
    ensures
        a == b,
{
    assert forall|i: int| 0 <= i < 8 implies le_byte(a, i) == le_byte(b, i) by {
        assert(le_bytes(a)[i] == le_byte(a, i));
        assert(le_bytes(b)[i] == le_byte(b, i));
        assert(le_bytes(a)[i] == le_bytes(b)[i]);
    }
    assert(le_byte(a, 0) == le_byte(b, 0));
    assert(le_byte(a, 1) == le_byte(b, 1));
    assert(le_byte(a, 2) == le_byte(b, 2));
    assert(le_byte(a, 3) == le_byte(b, 3));
    assert(le_byte(a, 4) == le_byte(b, 4));
    assert(le_byte(a, 5) == le_byte(b, 5));
    assert(le_byte(a, 6) == le_byte(b, 6));
    assert(le_byte(a, 7) == le_byte(b, 7));
    assert((((a >> 0) & 0xff) as u8 == ((b >> 0) & 0xff) as u8
        && ((a >> 8) & 0xff) as u8 == ((b >> 8) & 0xff) as u8
        && ((a >> 16) & 0xff) as u8 == ((b >> 16) & 0xff) as u8
        && ((a >> 24) & 0xff) as u8 == ((b >> 24) & 0xff) as u8
        && ((a >> 32) & 0xff) as u8 == ((b >> 32) & 0xff) as u8
        && ((a >> 40) & 0xff) as u8 == ((b >> 40) & 0xff) as u8
        && ((a >> 48) & 0xff) as u8 == ((b >> 48) & 0xff) as u8
        && ((a >> 56) & 0xff) as u8 == ((b >> 56) & 0xff) as u8) ==> a == b)
        by (bit_vector);
}

} // verus!
