//! Tests of the bit cursor and the image decompressor.

use acs::bit_reader::Bits;
use acs::compression::{decompress, DecompressionError};

/// Pack a stream of bits (given LSB-first, i.e. in consumption order) into
/// bytes.
fn pack_bits(bits: &[u8]) -> Vec<u8> {
    let mut out = vec![0u8; (bits.len() + 7) / 8];
    for (i, b) in bits.iter().enumerate() {
        if *b != 0 {
            out[i / 8] |= 1 << (i % 8);
        }
    }
    out
}

/// The bits of one byte in consumption order.
fn byte_bits(v: u8) -> Vec<u8> {
    (0..8).map(|i| (v >> i) & 1).collect()
}

/// The end-of-stream marker: a back-reference control bit, three tier ones
/// and a 20-bit offset field of all ones.
fn end_marker_bits() -> Vec<u8> {
    let mut bits = vec![1, 1, 1, 1];
    bits.extend_from_slice(&[1; 20]);
    bits
}

#[test]
fn test_pop_bit_order() {
    // 0xB4 = 1011_0100: LSB-first order is 0,0,1,0,1,1,0,1
    let mut bits = Bits::new(vec![0xB4]);
    let expected = [false, false, true, false, true, true, false, true];
    for e in expected {
        assert_eq!(bits.pop_bit(), Some(e));
    }
    assert_eq!(bits.pop_bit(), None);
}

#[test]
fn test_pop_bits_value() {
    // first bit read becomes bit 0 of the result
    let mut bits = Bits::new(vec![0xB4, 0x01]);
    assert_eq!(bits.pop_bits(4), Some(0b0100));
    assert_eq!(bits.pop_bits(4), Some(0b1011));
    // crossing a byte boundary
    let mut bits2 = Bits::new(vec![0xFF, 0x00]);
    assert_eq!(bits2.pop_bits(3), Some(0b111));
    assert_eq!(bits2.pop_bits(8), Some(0b00011111));
    // too few bits left
    assert_eq!(bits2.pop_bits(8), None);
}

#[test]
fn test_pop_byte_roundtrip() {
    let mut bits = Bits::new(vec![0x5A, 0xC3]);
    assert_eq!(bits.pop_byte(), Some(0x5A));
    assert_eq!(bits.pop_byte(), Some(0xC3));
    assert_eq!(bits.pop_byte(), None);
}

/// Reference vector from the compression protocol documentation.
#[test]
fn test_decompress_spec_example() {
    let compressed: Vec<u8> = vec![
        0x00, 0x40, 0x00, 0x04, 0x10, 0xD0, 0x90, 0x80, 0x42, 0xED, 0x98, 0x01, 0xB7, 0xFF,
        0xFF, 0xFF, 0xFF, 0xFF, 0xFF,
    ];

    let expected: Vec<u8> = vec![
        0x20, 0x00, 0x00, 0x00, 0x01, 0x00, 0x00, 0x00, 0x00, 0x00, 0x00, 0x00, 0xA8, 0x00,
        0x00, 0x00, 0x00, 0x00, 0x00, 0x00, 0x00, 0x00, 0x00, 0x00, 0x00, 0x00, 0x00, 0x00,
        0x00, 0x00, 0x00, 0x00,
    ];

    let result = decompress(compressed).expect("decompression failed");
    assert_eq!(result, expected);
}

#[test]
fn test_decompress_missing_leading_zero() {
    let r = decompress(vec![0x01, 0x00, 0x00]);
    assert_eq!(r, Err(DecompressionError::MissingLeadingZero));
}

#[test]
fn test_decompress_empty_is_eof() {
    let r = decompress(Vec::new());
    assert_eq!(r, Err(DecompressionError::UnexpectedEof));
}

#[test]
fn test_decompress_truncated_literal() {
    // a control bit announcing a literal, but only seven bits follow
    let r = decompress(vec![0x00, 0x00]);
    assert_eq!(r, Err(DecompressionError::UnexpectedEof));
}

#[test]
fn test_decompress_literal_only() {
    // leading zero byte, two literals, then the end marker
    let mut bits: Vec<u8> = Vec::new();
    bits.extend_from_slice(&byte_bits(0x00));
    bits.push(0);
    bits.extend_from_slice(&byte_bits(0xAB));
    bits.push(0);
    bits.extend_from_slice(&byte_bits(0xCD));
    bits.extend_from_slice(&end_marker_bits());
    let r = decompress(pack_bits(&bits)).expect("literals should decode");
    assert_eq!(r, vec![0xAB, 0xCD]);
}

#[test]
fn test_decompress_back_reference_run() {
    // one literal, then a back-reference with offset 1 and length 2:
    // a classic run-length repetition of the last byte
    let mut bits: Vec<u8> = Vec::new();
    bits.extend_from_slice(&byte_bits(0x00));
    bits.push(0);
    bits.extend_from_slice(&byte_bits(0x7E));
    bits.push(1); // control: back-reference
    bits.push(0); // tier 0
    bits.extend_from_slice(&[0, 0, 0, 0, 0, 0]); // offset field 0 -> offset 1
    bits.push(0); // length code: no extra ones -> length 2
    bits.extend_from_slice(&end_marker_bits());
    let r = decompress(pack_bits(&bits)).expect("run should decode");
    assert_eq!(r, vec![0x7E, 0x7E, 0x7E]);
}

#[test]
fn test_decompress_invalid_back_reference() {
    // a back-reference as the first token: nothing has been produced yet,
    // so even offset 1 lies outside the output
    let mut bits: Vec<u8> = Vec::new();
    bits.extend_from_slice(&byte_bits(0x00));
    bits.push(1); // control: back-reference
    bits.push(0); // tier 0
    bits.extend_from_slice(&[0, 0, 0, 0, 0, 0]); // offset field 0 -> offset 1
    let r = decompress(pack_bits(&bits));
    assert_eq!(r, Err(DecompressionError::InvalidBackReference));
}

#[test]
fn test_decompress_malformed_length_encoding() {
    // a valid literal, then a back-reference whose length code holds twelve
    // consecutive one bits
    let mut bits: Vec<u8> = Vec::new();
    bits.extend_from_slice(&byte_bits(0x00));
    bits.push(0);
    bits.extend_from_slice(&byte_bits(0x41));
    bits.push(1); // control: back-reference
    bits.push(0); // tier 0
    bits.extend_from_slice(&[0, 0, 0, 0, 0, 0]); // offset 1
    bits.extend_from_slice(&[1; 12]); // twelve ones: malformed
    let r = decompress(pack_bits(&bits));
    assert_eq!(r, Err(DecompressionError::MalformedLengthEncoding));
}

#[test]
fn test_decompress_repeatable() {
    // decompression is a pure function of its input: running it again on
    // the same bytes yields byte-identical output
    let compressed: Vec<u8> = vec![
        0x00, 0x40, 0x00, 0x04, 0x10, 0xD0, 0x90, 0x80, 0x42, 0xED, 0x98, 0x01, 0xB7, 0xFF,
        0xFF, 0xFF, 0xFF, 0xFF, 0xFF,
    ];
    let first = decompress(compressed.clone()).expect("decompression failed");
    let second = decompress(compressed).expect("decompression failed");
    assert_eq!(first, second);
}
