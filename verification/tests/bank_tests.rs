use bankres::bank::load_bank_entry;
use bankres::bank::unpack;
use bankres::bank::BitStream;
use bankres::bank::UnpackError;
use bankres::memlib::MemEntry;

/// A packed buffer whose bit stream holds one short-literal-copy token
/// decoding to the 4 bytes `ABCD`, with a checksum that cancels.
fn literal_only_payload() -> Vec<u8> {
    vec![
        0x82, 0x42, 0xC2, 0x22, // second word of the bit stream
        0x00, 0x00, 0x00, 0x38, // initial bit reservoir
        0x82, 0x42, 0xC2, 0x1A, // embedded checksum
        0x00, 0x00, 0x00, 0x04, // declared uncompressed size
    ]
}

/// A packed buffer decoding to `ABCDABCD`: a 4-byte literal copy
/// followed by a length-4, offset-4 back-reference.
fn back_reference_payload() -> Vec<u8> {
    vec![
        0x20, 0x2C, 0x12, 0x16, // second word of the bit stream
        0x00, 0x04, 0x44, 0x58, // initial bit reservoir
        0x20, 0x28, 0x56, 0x4E, // embedded checksum
        0x00, 0x00, 0x00, 0x08, // declared uncompressed size
    ]
}

#[test]
fn unpack_rejects_short_payload() {
    let src = vec![0u8; 8];
    let r = unpack(&src, vec![0u8; 4]);
    assert_eq!(r, Err(UnpackError::FormatError));
}

#[test]
fn unpack_rejects_unaligned_payload() {
    let src = vec![0u8; 10];
    let r = unpack(&src, vec![0u8; 4]);
    assert_eq!(r, Err(UnpackError::FormatError));
}

#[test]
fn unpack_rejects_undersized_destination() {
    let src = literal_only_payload();
    let r = unpack(&src, vec![0u8; 2]);
    assert_eq!(r, Err(UnpackError::FormatError));
}

#[test]
fn unpack_literal_only_payload() {
    let src = literal_only_payload();
    let r = unpack(&src, vec![0u8; 4]);
    assert_eq!(r, Ok(vec![0x41, 0x42, 0x43, 0x44]));
}

#[test]
fn unpack_is_deterministic() {
    let src = back_reference_payload();
    let first = unpack(&src, vec![0u8; 8]);
    let second = unpack(&src, vec![0u8; 8]);
    assert_eq!(first, second);
}

#[test]
fn unpack_back_reference_payload() {
    let src = back_reference_payload();
    let r = unpack(&src, vec![0u8; 8]).unwrap();
    assert_eq!(r, vec![0x41, 0x42, 0x43, 0x44, 0x41, 0x42, 0x43, 0x44]);
}

#[test]
fn unpack_emits_declared_size_exactly() {
    let src = back_reference_payload();
    let r = unpack(&src, vec![0u8; 8]).unwrap();
    assert_eq!(r.len(), 8);
    // a roomier destination keeps its bytes above the declared size
    let r = unpack(&src, vec![0xEEu8; 10]).unwrap();
    assert_eq!(r.len(), 10);
    assert_eq!(&r[..8], &[0x41, 0x42, 0x43, 0x44, 0x41, 0x42, 0x43, 0x44]);
    assert_eq!(&r[8..], &[0xEE, 0xEE]);
}

#[test]
fn unpack_minimum_length_payload() {
    // the shortest well-formed packed buffer: 12 bytes, every token
    // bit living in the initial reservoir word
    let src = vec![
        0x39, 0x88, 0x91, 0x08, // initial bit reservoir
        0x39, 0x88, 0x91, 0x08, // embedded checksum
        0x00, 0x00, 0x00, 0x03, // declared uncompressed size
    ];
    let r = unpack(&src, vec![0u8; 3]);
    assert_eq!(r, Ok(vec![0x33, 0x22, 0x11]));
}

#[test]
fn unpack_zero_declared_size() {
    // nothing owed: the token loop never runs, and only the initial
    // reservoir word is folded into the checksum
    let src = vec![
        0x00, 0x00, 0x00, 0x07, // initial bit reservoir
        0x00, 0x00, 0x00, 0x07, // embedded checksum
        0x00, 0x00, 0x00, 0x00, // declared uncompressed size
    ];
    let r = unpack(&src, Vec::new());
    assert_eq!(r, Ok(Vec::new()));
}

#[test]
fn unpack_rejects_out_of_range_back_reference() {
    // one short back-reference token whose offset reaches past the
    // first decoded byte
    let src = vec![
        0x00, 0x00, 0x06, 0x82, // initial bit reservoir
        0x00, 0x00, 0x06, 0x82, // embedded checksum
        0x00, 0x00, 0x00, 0x02, // declared uncompressed size
    ];
    let r = unpack(&src, vec![0u8; 2]);
    assert_eq!(r, Err(UnpackError::CorruptionError));
}

#[test]
fn unpack_rejects_bad_checksum() {
    let mut src = literal_only_payload();
    src[11] ^= 0x01; // flip a bit of the embedded checksum word
    let r = unpack(&src, vec![0u8; 4]);
    assert_eq!(r, Err(UnpackError::ChecksumError));
}

#[test]
fn unpack_rejects_flipped_payload_byte() {
    let mut src = literal_only_payload();
    src[0] ^= 0xFF;
    let r = unpack(&src, vec![0u8; 4]);
    assert!(matches!(r, Err(_)));
}

fn entry(packed_size: u16, size: u16) -> MemEntry {
    MemEntry {
        state: 2,
        type_: 0,
        buf_ptr: 0,
        unused_4: 0,
        rank_num: 0,
        bank_id: 1,
        bank_offset: 0,
        unused_c: 0,
        packed_size,
        unused_10: 0,
        size,
    }
}

#[test]
fn load_bank_entry_raw_passthrough() {
    // equal packed and unpacked sizes: the stored bytes come back
    // untouched, the decoder never runs
    let raw = vec![9u8, 8, 7, 6, 5];
    let r = load_bank_entry(&entry(5, 5), raw.clone());
    assert_eq!(r, Ok(raw));
}

#[test]
fn load_bank_entry_unpacks_compressed() {
    let raw = literal_only_payload();
    let r = load_bank_entry(&entry(16, 4), raw);
    assert_eq!(r, Ok(vec![0x41, 0x42, 0x43, 0x44]));
}

#[test]
fn load_bank_entry_propagates_decoder_errors() {
    let r = load_bank_entry(&entry(8, 4), vec![0u8; 8]);
    assert_eq!(r, Err(UnpackError::FormatError));
}

#[test]
fn bit_stream_reads_low_bits_first_and_stops_at_the_quirk() {
    // reservoir 0b1011: bits come out low bit first, and the early
    // refill fires once the remaining value falls to 1, so only
    // three of the word's bits can be read
    let data = vec![0u8, 0, 0, 0x0B];
    let mut bs = BitStream::new(&data, 4, 0);
    assert_eq!(bs.get_bits(&data, 3), Ok(0b110));
    assert_eq!(bs.get_bit(&data), Err(UnpackError::CorruptionError));
}
