//! Vector wire encoding: an embedding travels as a base64 string of its
//! 32-bit floats packed little-endian. The library holds a vector as the bit
//! patterns of its floats; packing and unpacking are verified, and the
//! base64 step is the base64 crate's.

use vstd::prelude::*;

verus! {

/// Byte `i` of the little-endian encoding of `x`.
pub open spec fn le32_byte(x: u32, i: int) -> u8 {
    ((x >> (8 * i) as u32) & 0xff) as u8
}

/// The 4-byte little-endian encoding of `x`.
pub open spec fn le32_bytes(x: u32) -> Seq<u8> {
    Seq::new(4, |i: int| le32_byte(x, i))
}

/// The little-endian packing of a word sequence.
pub open spec fn pack_le(v: Seq<u32>) -> Seq<u8>
    decreases v.len(),
{
    if v.len() == 0 {
        Seq::empty()
    } else {
        pack_le(v.drop_last()) + le32_bytes(v.last())
    }
}

/// The word read from the 4 bytes at position `4 * k`.
pub open spec fn word_at(b: Seq<u8>, k: int) -> u32 {
    (b[4 * k] as u32) | ((b[4 * k + 1] as u32) << 8) | ((b[4 * k + 2] as u32) << 16) | ((b[4 * k
        + 3] as u32) << 24)
}

/// The words read 4 bytes at a time; trailing bytes are dropped.
pub open spec fn unpack_le(b: Seq<u8>) -> Seq<u32> {
    Seq::new((b.len() as int / 4) as nat, |k: int| word_at(b, k))
}

/// Packing n words yields 4n bytes, and byte `4k + i` is byte `i` of word `k`.
pub proof fn lemma_pack_le_bytes(v: Seq<u32>)
    ensures
        pack_le(v).len() == 4 * v.len(),
        forall|k: int, i: int|
            0 <= k < v.len() && 0 <= i < 4 ==> pack_le(v)[4 * k + i] == le32_byte(v[k], i),
    decreases v.len(),
{
    if v.len() == 0 {
    } else {
        lemma_pack_le_bytes(v.drop_last());
        let p = pack_le(v);
        let q = pack_le(v.drop_last());
        assert forall|k: int, i: int|
            0 <= k < v.len() && 0 <= i < 4 implies p[4 * k + i] == le32_byte(v[k], i) by {
            if k < v.len() - 1 {
                assert(p[4 * k + i] == q[4 * k + i]);
                assert(v.drop_last()[k] == v[k]);
            } else {
                assert(p[4 * k + i] == le32_bytes(v.last())[i]);
            }
        }
    }
}

/// Round trip: unpacking a packed word sequence gives it back. Packing is
/// reading each word's 4 little-endian bytes, so reassembling them restores
/// every word.
pub proof fn lemma_pack_unpack_roundtrip(v: Seq<u32>)
    ensures
        unpack_le(pack_le(v)) == v,
{
    lemma_pack_le_bytes(v);
    let p = pack_le(v);
    assert(p.len() as int / 4 == v.len());
    assert forall|k: int| 0 <= k < v.len() implies unpack_le(p)[k] == v[k] by {
        assert(p[4 * k] == le32_byte(v[k], 0));
        assert(p[4 * k + 1] == le32_byte(v[k], 1));
        assert(p[4 * k + 2] == le32_byte(v[k], 2));
        assert(p[4 * k + 3] == le32_byte(v[k], 3));
        let x = v[k];
        assert(((((x >> 0u32) & 0xff) as u8) as u32) | (((((x >> 8u32) & 0xff) as u8) as u32)
            << 8) | (((((x >> 16u32) & 0xff) as u8) as u32) << 16) | (((((x >> 24u32) & 0xff)
            as u8) as u32) << 24) == x) by (bit_vector);
        assert(unpack_le(p)[k] == word_at(p, k));
    }
    assert(unpack_le(p) =~= v);
}

/// Packs a word vector into its little-endian bytes.
pub fn pack_vector(v: &Vec<u32>) -> (r: Vec<u8>)
    ensures
        r@ == pack_le(v@),
{
    let mut out: Vec<u8> = Vec::new();
    let n = v.len();
    let mut i: usize = 0;
    while i < n
        invariant
            n == v@.len(),
            i <= n,
            out@ == pack_le(v@.take(i as int)),
        decreases n - i,
    {
        let x = v[i];
        out.push((x & 0xff) as u8);
        out.push(((x >> 8) & 0xff) as u8);
        out.push(((x >> 16) & 0xff) as u8);
        out.push(((x >> 24) & 0xff) as u8);
        proof {
            assert(v@.take(i + 1 as int).drop_last() =~= v@.take(i as int));
            assert(v@.take(i + 1 as int).last() == v@[i as int]);
            assert(x >> 0u32 == x) by (bit_vector);
            assert((x & 0xff) as u8 == le32_byte(x, 0));
            assert(((x >> 8) & 0xff) as u8 == le32_byte(x, 1));
            assert(((x >> 16) & 0xff) as u8 == le32_byte(x, 2));
            assert(((x >> 24) & 0xff) as u8 == le32_byte(x, 3));
            assert(pack_le(v@.take(i as int)) + le32_bytes(x) =~= pack_le(v@.take(i + 1 as int)));
            assert(out@ =~= pack_le(v@.take(i + 1 as int)));
        }
        i = i + 1;
    }
    proof {
        assert(v@.take(n as int) =~= v@);
    }
    out
}

/// Unpacks little-endian bytes into words, 4 bytes at a time; fewer than 4
/// trailing bytes are dropped.
pub fn unpack_vector(b: &[u8]) -> (r: Vec<u32>)
    ensures
        r@ == unpack_le(b@),
{
    let len = b.len();
    let mut out: Vec<u32> = Vec::new();
    let mut j: usize = 0;
    while len >= 4 && j <= len - 4
        invariant
            len == b@.len(),
            j % 4 == 0,
            j <= len,
            out@ == unpack_le(b@).take(j as int / 4),
        decreases len - j,
    {
        let w = (b[j] as u32) | ((b[j + 1] as u32) << 8) | ((b[j + 2] as u32) << 16) | ((b[j + 3]
            as u32) << 24);
        out.push(w);
        proof {
            let k = j as int / 4;
            assert(4 * k == j as int);
            assert(w == word_at(b@, k));
            assert(k < b@.len() as int / 4);
            assert(unpack_le(b@).take(k).push(word_at(b@, k)) =~= unpack_le(b@).take(k + 1));
        }
        j = j + 4;
    }
    proof {
        assert(j as int / 4 == b@.len() as int / 4);
        assert(unpack_le(b@).take(b@.len() as int / 4) =~= unpack_le(b@));
    }
    out
}

/// The base64 string the base64 crate's standard engine writes for these
/// bytes. Its value is fixed but not described here.
pub uninterp spec fn b64_encode(bytes: Seq<u8>) -> Seq<char>;

/// What the base64 crate's standard engine reads from this string: the
/// decoded bytes, or nothing when the string is not valid base64.
pub uninterp spec fn b64_decode(s: Seq<char>) -> Option<Seq<u8>>;

/// Relies on base64's STANDARD engine: encoding depends on the input bytes
/// alone, and the crate documents that decode inverts encode.
#[verifier::external_body]
pub fn base64_encode(bytes: &[u8]) -> (r: String)
    ensures
        r@ == b64_encode(bytes@),
        b64_decode(r@) == Some(bytes@),
{
    base64::Engine::encode(&base64::engine::general_purpose::STANDARD, bytes)
}

/// Relies on base64's STANDARD engine: decoding depends on the input string
/// alone and fails exactly on strings that are not valid base64.
#[verifier::external_body]
pub fn base64_decode(s: &str) -> (r: Option<Vec<u8>>)
    ensures
        r matches Some(b) ==> b64_decode(s@) == Some(b@),
        r is None ==> b64_decode(s@) is None,
{
    base64::Engine::decode(&base64::engine::general_purpose::STANDARD, s).ok()
}

/// Encodes a vector for the wire: its packed little-endian bytes, base64.
pub fn vector_to_base64(v: &Vec<u32>) -> (r: String)
    ensures
        r@ == b64_encode(pack_le(v@)),
        b64_decode(r@) == Some(pack_le(v@)),
{
    let packed = pack_vector(v);
    base64_encode(packed.as_slice())
}

/// Decodes a vector from the wire. Decoding what `vector_to_base64` wrote
/// restores the vector: see `lemma_pack_unpack_roundtrip`.
pub fn base64_to_vector(s: &str) -> (r: Option<Vec<u32>>)
    ensures
        r matches Some(w) ==> (b64_decode(s@) matches Some(b) && w@ == unpack_le(b)),
        r is None ==> b64_decode(s@) is None,
{
    match base64_decode(s) {
        Some(b) => Some(unpack_vector(b.as_slice())),
        None => None,
    }
}

} // verus!
