//! Small byte and string helpers shared by the chunker, the synchronizer
//! and the output formatter.

use vstd::prelude::*;
use vstd::utf8::{decode_utf8, encode_utf8_decode_utf8, valid_utf8};
use vstd::string::StringSliceAdditionalSpecFns;

verus! {

/// Byte-for-byte equality of two slices.
pub fn bytes_eq(a: &[u8], b: &[u8]) -> (r: bool)
    ensures
        r == (a@ == b@),
{
    if a.len() != b.len() {
        assert(a@.len() != b@.len());
        return false;
    }
    let n = a.len();
    let mut i: usize = 0;
    while i < n
        invariant
            n == a@.len() == b@.len(),
            i <= n,
            forall|j: int| 0 <= j < i ==> a@[j] == b@[j],
        decreases n - i,
    {
        if a[i] != b[i] {
            return false;
        }
        i = i + 1;
    }
    assert(a@ =~= b@);
    true
}

/// String equality, decided on the UTF-8 encodings.
pub fn str_eq(a: &str, b: &str) -> (r: bool)
    ensures
        r == (a@ == b@),
{
    let r = bytes_eq(a.as_bytes(), b.as_bytes());
    proof {
        encode_utf8_decode_utf8(a@);
        encode_utf8_decode_utf8(b@);
    }
    r
}

/// Copies `s[from..to]` into a fresh vector.
pub fn subrange_vec<T: Copy>(s: &[T], from: usize, to: usize) -> (r: Vec<T>)
    requires
        from <= to <= s@.len(),
    ensures
        r@ == s@.subrange(from as int, to as int),
{
    let mut out: Vec<T> = Vec::new();
    let mut i: usize = from;
    while i < to
        invariant
            from <= i <= to <= s@.len(),
            out@ == s@.subrange(from as int, i as int),
        decreases to - i,
    {
        out.push(s[i]);
        assert(s@.subrange(from as int, i as int).push(s@[i as int])
            =~= s@.subrange(from as int, i + 1 as int));
        i = i + 1;
    }
    out
}

/// Appends all of `s` to `out`.
pub fn push_bytes(out: &mut Vec<u8>, s: &[u8])
    ensures
        final(out)@ == old(out)@ + s@,
{
    let ghost prefix = out@;
    let n = s.len();
    let mut i: usize = 0;
    while i < n
        invariant
            n == s@.len(),
            i <= n,
            out@ == prefix + s@.take(i as int),
        decreases n - i,
    {
        out.push(s[i]);
        assert(prefix + s@.take(i as int) + seq![s@[i as int]]
            =~= prefix + s@.take(i + 1 as int));
        i = i + 1;
    }
    assert(prefix + s@.take(n as int) =~= prefix + s@);
}

/// Relies on std's String::from_utf8: it succeeds exactly on valid UTF-8
/// and returns the decoding of those bytes.
#[verifier::external_body]
pub fn string_from_bytes(v: Vec<u8>) -> (r: Option<String>)
    ensures
        r is Some <==> valid_utf8(v@),
        r matches Some(s) ==> s@ == decode_utf8(v@),
{
    match String::from_utf8(v) {
        Ok(s) => Some(s),
        Err(_) => None,
    }
}

/// Relies on std's str::from_utf8: it succeeds exactly on valid UTF-8 and
/// returns a view of those bytes.
#[verifier::external_body]
pub fn bytes_to_str(v: &[u8]) -> (r: Option<&str>)
    ensures
        r is Some <==> valid_utf8(v@),
        r matches Some(s) ==> s@ == decode_utf8(v@),
{
    core::str::from_utf8(v).ok()
}

/// Relies on std's FromIterator for String: collecting chars in order.
#[verifier::external_body]
pub fn chars_to_string(v: Vec<char>) -> (r: String)
    ensures
        r@ == v@,
{
    v.into_iter().collect()
}

/// Relies on std's str::chars: the characters of the string, in order.
#[verifier::external_body]
pub fn str_to_chars(s: &str) -> (r: Vec<char>)
    ensures
        r@ == s@,
{
    s.chars().collect()
}

/// The lower-casing that str::to_lowercase performs. Its value on given
/// characters is fixed but not described here.
pub uninterp spec fn lower_of(s: Seq<char>) -> Seq<char>;

/// Relies on str::to_lowercase: the result depends on the characters alone.
#[verifier::external_body]
pub fn lowercase(s: &str) -> (r: String)
    ensures
        r@ == lower_of(s@),
{
    s.to_lowercase()
}

/// The index of the last occurrence of `c` in `s`, or -1 when it does not
/// occur.
pub open spec fn last_index_of(s: Seq<char>, c: char) -> int
    decreases s.len(),
{
    if s.len() == 0 {
        -1
    } else if s.last() == c {
        s.len() - 1
    } else {
        last_index_of(s.drop_last(), c)
    }
}

/// `last_index_of` names the last occurrence: it is in range and nothing
/// after it is `c`; and it is -1 exactly when `c` does not occur.
pub proof fn lemma_last_index_of(s: Seq<char>, c: char)
    ensures
        last_index_of(s, c) >= -1,
        last_index_of(s, c) == -1 <==> (forall|j: int| 0 <= j < s.len() ==> s[j] != c),
        last_index_of(s, c) >= 0 ==> last_index_of(s, c) < s.len() && s[last_index_of(s, c)] == c
            && (forall|j: int| last_index_of(s, c) < j < s.len() ==> s[j] != c),
    decreases s.len(),
{
    if s.len() == 0 {
    } else if s.last() == c {
    } else {
        lemma_last_index_of(s.drop_last(), c);
        assert(forall|j: int| 0 <= j < s.len() - 1 ==> s.drop_last()[j] == s[j]);
    }
}

/// Whether position `i` does not split a multi-byte encoding: it sits at
/// either end, or on a byte that is not a UTF-8 continuation byte. On valid
/// UTF-8 this is exactly a character boundary.
pub open spec fn spec_non_continuation(bytes: Seq<u8>, i: int) -> bool {
    i == 0 || i == bytes.len() || !vstd::utf8::is_continuation_byte(bytes[i])
}

/// Decides `spec_non_continuation`.
pub fn non_continuation(bytes: &[u8], i: usize) -> (r: bool)
    requires
        i <= bytes@.len(),
    ensures
        r == spec_non_continuation(bytes@, i as int),
{
    i == 0 || i == bytes.len() || !(0x80 <= bytes[i] && bytes[i] <= 0xbf)
}

/// A subrange of valid UTF-8 whose ends do not split an encoding is valid
/// UTF-8 on its own.
pub proof fn lemma_valid_subrange(bytes: Seq<u8>, a: int, b: int)
    requires
        valid_utf8(bytes),
        0 <= a <= b <= bytes.len(),
        spec_non_continuation(bytes, a),
        spec_non_continuation(bytes, b),
    ensures
        valid_utf8(bytes.subrange(a, b)),
{
    vstd::utf8::is_char_boundary_start_end_of_seq(bytes);
    if 0 < b < bytes.len() {
        vstd::utf8::is_char_boundary_iff_not_is_continuation_byte(bytes, b);
    }
    assert(vstd::utf8::is_char_boundary(bytes, b));
    vstd::utf8::valid_utf8_split(bytes, b);
    let head = bytes.subrange(0, b);
    assert(valid_utf8(head));
    vstd::utf8::is_char_boundary_start_end_of_seq(head);
    if 0 < a < b {
        assert(head[a] == bytes[a]);
        vstd::utf8::is_char_boundary_iff_not_is_continuation_byte(head, a);
    }
    assert(vstd::utf8::is_char_boundary(head, a));
    vstd::utf8::valid_utf8_split(head, a);
    assert(head.subrange(a, head.len() as int) =~= bytes.subrange(a, b));
}

/// Whether `sub` occurs contiguously inside `s`.
pub open spec fn has_substring(s: Seq<char>, sub: Seq<char>) -> bool {
    exists|k: int|
        0 <= k && k + sub.len() <= s.len() && #[trigger] s.subrange(k, k + sub.len() as int) == sub
}

/// Whether `nd` matches `h` at position `k`.
pub fn match_at(h: &Vec<char>, nd: &Vec<char>, k: usize) -> (r: bool)
    requires
        k + nd@.len() <= h@.len(),
    ensures
        r == (h@.subrange(k as int, k as int + nd@.len() as int) == nd@),
{
    let m = nd.len();
    let hl = h.len();
    let mut j: usize = 0;
    while j < m
        invariant
            m == nd@.len(),
            hl == h@.len(),
            k + m <= hl,
            j <= m,
            forall|j2: int| 0 <= j2 < j ==> h@[k + j2] == nd@[j2],
        decreases m - j,
    {
        if h[k + j] != nd[j] {
            proof {
                let sub = h@.subrange(k as int, k as int + m as int);
                assert(sub[j as int] == h@[k + j]);
            }
            return false;
        }
        j = j + 1;
    }
    proof {
        assert(h@.subrange(k as int, k as int + m as int) =~= nd@);
    }
    true
}

/// Decides whether `needle` occurs inside `hay`.
pub fn contains_substring(hay: &str, needle: &str) -> (r: bool)
    ensures
        r == has_substring(hay@, needle@),
{
    let h = str_to_chars(hay);
    let nd = str_to_chars(needle);
    let hn = h.len();
    let m = nd.len();
    if m == 0 {
        proof {
            assert(hay@.subrange(0, 0 + needle@.len() as int) =~= needle@);
            assert(has_substring(hay@, needle@));
        }
        return true;
    }
    if m > hn {
        return false;
    }
    let mut k: usize = 0;
    while k <= hn - m
        invariant
            hn == h@.len() && h@ == hay@,
            m == nd@.len() && nd@ == needle@,
            1 <= m <= hn,
            k <= hn - m + 1,
            forall|k2: int| 0 <= k2 < k ==> #[trigger] h@.subrange(k2, k2 + m as int) != nd@,
        decreases hn - m + 1 - k,
    {
        if match_at(&h, &nd, k) {
            return true;
        }
        k = k + 1;
    }
    false
}

/// Finds the last occurrence of `c` in `v`.
pub fn find_last(v: &Vec<char>, c: char) -> (r: Option<usize>)
    ensures
        r matches Some(i) ==> i < v@.len() && i as int == last_index_of(v@, c),
        r is None ==> last_index_of(v@, c) == -1,
{
    proof {
        lemma_last_index_of(v@, c);
    }
    let mut k = v.len();
    while k > 0
        invariant
            k <= v@.len(),
            forall|j: int| k <= j < v@.len() ==> v@[j] != c,
        decreases k,
    {
        k = k - 1;
        if v[k] == c {
            proof {
                lemma_last_index_of(v@, c);
                let l = last_index_of(v@, c);
                assert(v@[k as int] == c);
                if l > k as int {
                    assert(k as int + 1 <= l < v@.len());
                    assert(v@[l] != c);
                } else if 0 <= l < k as int {
                    assert(v@[k as int] != c);
                } else if l == -1 {
                    assert(v@[k as int] != c);
                }
            }
            return Some(k);
        }
    }
    None
}

} // verus!
