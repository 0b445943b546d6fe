use pngscan::chunk::{Chunk, ChunkId};
use pngscan::crc::crc;
use pngscan::scan::{encode_chunk, parse_chunk_at};

#[test]
fn test_crc_iend() {
    let iend = Chunk {
        id: ChunkId::iend(),
        data: vec![],
        crc: u32::from_be_bytes([0xae, 0x42, 0x60, 0x82]),
    };
    assert_eq!(crc(iend.id, &iend.data), iend.crc);
    assert!(iend.is_valid_spec());
}

#[test]
fn crc_reference_vector_ihdr() {
    let payload = [0u8, 0, 0, 1, 0, 0, 0, 1, 8, 0, 0, 0, 0];
    assert_eq!(crc(ChunkId::ihdr(), &payload), 0x3A7E9B55);
}

#[test]
fn crc_is_deterministic() {
    let payload = [1u8, 2, 3, 4, 5];
    let a = crc(ChunkId::idat(), &payload);
    let b = crc(ChunkId::idat(), &payload);
    assert_eq!(a, b);
}

#[test]
fn round_trip_chunk_parses_identically() {
    let data = vec![0u8, 0, 0, 1, 0, 0, 0, 1, 8, 0, 0, 0, 0];
    let c = Chunk {
        id: ChunkId::ihdr(),
        crc: crc(ChunkId::ihdr(), &data),
        data,
    };
    let bytes = encode_chunk(&c);
    assert_eq!(bytes.len(), c.full_len());
    let (parsed, consumed) = parse_chunk_at(&bytes, 0).unwrap();
    assert_eq!(consumed, bytes.len());
    assert_eq!(parsed, c);
}

#[test]
fn round_trip_preserves_a_mismatched_crc() {
    let c = Chunk { id: ChunkId::iend(), data: vec![], crc: 0xDEADBEEF };
    let bytes = encode_chunk(&c);
    let (parsed, consumed) = parse_chunk_at(&bytes, 0).unwrap();
    assert_eq!(consumed, 12);
    assert_eq!(parsed, c);
    assert!(!parsed.is_valid_chunk());
}

#[test]
fn chunk_validity_distinguishes_structure_from_spec() {
    // Correct CRC but a bad IEND shape: one stray payload byte.
    let data = vec![7u8];
    let c = Chunk {
        id: ChunkId::iend(),
        crc: crc(ChunkId::iend(), &data),
        data,
    };
    assert!(c.is_valid_chunk());
    assert!(!c.is_valid_spec());
}

#[test]
fn chunk_id_charset() {
    assert!(ChunkId::ihdr().is_valid());
    assert!(ChunkId([0x41, 0x5A, 0x61, 0x7A]).is_valid());
    assert!(!ChunkId([0x40, 0x41, 0x41, 0x41]).is_valid());
    assert!(!ChunkId([0x41, 0x41, 0x41, 0x30]).is_valid());
}

#[test]
fn chunk_id_property_bits() {
    // IHDR: critical, standard, reserved clear, not safe to copy.
    let ihdr = ChunkId::ihdr();
    assert!(ihdr.is_display_critical());
    assert!(ihdr.is_standard_defined());
    assert!(!ihdr.is_reserved());
    assert!(!ihdr.is_safe_to_copy());
    // tIME: ancillary, standard, not safe to copy.
    let time = ChunkId::time();
    assert!(!time.is_display_critical());
    assert!(time.is_standard_defined());
    assert!(!time.is_reserved());
    assert!(!time.is_safe_to_copy());
    // tEXt: ancillary and safe to copy.
    let text = ChunkId([0x74, 0x45, 0x58, 0x74]);
    assert!(!text.is_display_critical());
    assert!(text.is_standard_defined());
    assert!(!text.is_reserved());
    assert!(text.is_safe_to_copy());
}

#[test]
fn full_len_counts_header_payload_and_trailer() {
    let c = Chunk { id: ChunkId::idat(), data: vec![0u8; 5], crc: 0 };
    assert_eq!(c.full_len(), 17);
}
