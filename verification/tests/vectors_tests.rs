use base64::Engine as _;
use turbogrep::vectors::{base64_to_vector, pack_vector, unpack_vector, vector_to_base64};

// Round-trip: base64-decoding a vector produced by packing little-endian
// 32-bit floats yields the same floats.
#[test]
fn test_vector_base64_roundtrip() {
    let floats: Vec<f32> = vec![1.5, -2.25, 0.0, 3.14159, f32::MIN_POSITIVE];
    let bits: Vec<u32> = floats.iter().map(|f| f.to_bits()).collect();

    let encoded = vector_to_base64(&bits);
    let decoded = base64_to_vector(&encoded).unwrap();
    assert_eq!(decoded, bits);

    let round_tripped: Vec<f32> = decoded.iter().map(|&b| f32::from_bits(b)).collect();
    assert_eq!(round_tripped, floats);
}

// The packed bytes agree with the floats' own little-endian encodings, and
// the base64 agrees with the base64 crate applied directly.
#[test]
fn test_vector_encoding_matches_reference() {
    let floats: Vec<f32> = vec![0.5, -1.0, 42.0];
    let bits: Vec<u32> = floats.iter().map(|f| f.to_bits()).collect();

    let mut reference_bytes: Vec<u8> = Vec::new();
    for f in &floats {
        reference_bytes.extend_from_slice(&f.to_le_bytes());
    }
    assert_eq!(pack_vector(&bits), reference_bytes);

    let reference_b64 = base64::engine::general_purpose::STANDARD.encode(&reference_bytes);
    assert_eq!(vector_to_base64(&bits), reference_b64);
}

#[test]
fn test_unpack_drops_trailing_bytes() {
    let bytes = vec![1u8, 0, 0, 0, 2, 0, 0, 0, 9, 9];
    assert_eq!(unpack_vector(&bytes), vec![1u32, 2u32]);
}

#[test]
fn test_base64_decode_failure() {
    assert!(base64_to_vector("not base64 at all!!!").is_none());
}
