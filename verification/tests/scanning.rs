use pngscan::chunk::{Chunk, ChunkId};
use pngscan::crc::crc;
use pngscan::report::{scan_report, ChunkSummary, EndReason, Record};
use pngscan::scan::{parse_chunk_at, scan, ParseErr};

const SIGNATURE: [u8; 8] = [0x89, 0x50, 0x4E, 0x47, 0x0D, 0x0A, 0x1A, 0x0A];

fn chunk_bytes(id: ChunkId, payload: &[u8], crc32: u32) -> Vec<u8> {
    let mut out = Vec::new();
    out.extend_from_slice(&(payload.len() as u32).to_be_bytes());
    out.extend_from_slice(&id.0);
    out.extend_from_slice(payload);
    out.extend_from_slice(&crc32.to_be_bytes());
    out
}

fn good_chunk_bytes(id: ChunkId, payload: &[u8]) -> Vec<u8> {
    chunk_bytes(id, payload, crc(id, payload))
}

const IHDR_MIN: [u8; 13] = [0, 0, 0, 1, 0, 0, 0, 1, 8, 0, 0, 0, 0];

#[test]
fn parse_reports_each_error_kind() {
    // Too short for the header.
    assert_eq!(parse_chunk_at(&[0, 0, 0], 0), Err(ParseErr::UnexpectedEnd));
    // A non-letter type-code byte.
    let bad_type = [0u8, 0, 0, 0, b'I', b'E', b'N', b'0'];
    assert_eq!(parse_chunk_at(&bad_type, 0), Err(ParseErr::InvalidChunkType));
    // Declared length above 0x7FFFFFFF.
    let huge = [0x80u8, 0, 0, 0, b'I', b'D', b'A', b'T'];
    assert_eq!(parse_chunk_at(&huge, 0), Err(ParseErr::ChunkTooLarge));
    // Valid header but payload and trailer missing.
    let cut = [0u8, 0, 0, 5, b'I', b'D', b'A', b'T', 1, 2];
    assert_eq!(parse_chunk_at(&cut, 0), Err(ParseErr::UnexpectedEnd));
    // The type-code check wins over the size check.
    let bad_both = [0x80u8, 0, 0, 0, b'I', b'E', b'N', b'0'];
    assert_eq!(parse_chunk_at(&bad_both, 0), Err(ParseErr::InvalidChunkType));
}

#[test]
fn parse_keeps_a_crc_mismatch_as_a_chunk() {
    let bytes = chunk_bytes(ChunkId::iend(), &[], 0xAE426083);
    let (c, consumed) = parse_chunk_at(&bytes, 0).unwrap();
    assert_eq!(consumed, 12);
    assert!(!c.is_valid_chunk());
    assert_eq!(c.crc, 0xAE426083);
}

#[test]
fn empty_buffer_scans_to_an_empty_report() {
    let report = scan_report(&[]);
    assert!(report.is_empty());
}

#[test]
fn signature_rooted_chain_of_two_chunks() {
    // Scenario: signature, minimal IHDR, IEND; one chain of length two,
    // terminated by IEND, and no unused bytes.
    let mut buf = SIGNATURE.to_vec();
    buf.extend_from_slice(&good_chunk_bytes(ChunkId::ihdr(), &IHDR_MIN));
    buf.extend_from_slice(&good_chunk_bytes(ChunkId::iend(), &[]));
    let report = scan_report(&buf);
    assert_eq!(report.len(), 4);
    assert_eq!(report[0], Record::SignatureStart { offset: 0 });
    match &report[1] {
        Record::ChunkFound { offset, chunk, summary } => {
            assert_eq!(*offset, 8);
            assert_eq!(chunk.id, ChunkId::ihdr());
            assert!(matches!(summary, Some(ChunkSummary::Header(_))));
        }
        other => panic!("unexpected record {:?}", other),
    }
    match &report[2] {
        Record::ChunkFound { offset, chunk, summary } => {
            assert_eq!(*offset, 33);
            assert_eq!(chunk.id, ChunkId::iend());
            assert_eq!(*summary, Some(ChunkSummary::End));
        }
        other => panic!("unexpected record {:?}", other),
    }
    assert_eq!(report[3], Record::ChainEnd { reason: EndReason::Iend });
}

#[test]
fn lone_chunk_reports_as_a_bare_chain() {
    // Scenario: one valid IEND chunk and no signature anywhere.
    let buf = good_chunk_bytes(ChunkId::iend(), &[]);
    let report = scan_report(&buf);
    assert_eq!(report.len(), 3);
    assert_eq!(report[0], Record::BareStart { offset: 0 });
    match &report[1] {
        Record::ChunkFound { offset, chunk, summary } => {
            assert_eq!(*offset, 0);
            assert_eq!(chunk.id, ChunkId::iend());
            assert_eq!(*summary, Some(ChunkSummary::End));
        }
        other => panic!("unexpected record {:?}", other),
    }
    assert_eq!(report[2], Record::ChainEnd { reason: EndReason::Iend });
}

#[test]
fn crc_mismatch_stays_in_its_chain_without_a_summary() {
    // Scenario: signature plus one chunk whose trailing CRC has a flipped
    // bit; the chunk stays in the chain, with its raw CRC and no summary.
    let mut buf = SIGNATURE.to_vec();
    let good = crc(ChunkId::gama(), &45455u32.to_be_bytes());
    buf.extend_from_slice(&chunk_bytes(ChunkId::gama(), &45455u32.to_be_bytes(), good ^ 1));
    let report = scan_report(&buf);
    assert_eq!(report.len(), 3);
    assert_eq!(report[0], Record::SignatureStart { offset: 0 });
    match &report[1] {
        Record::ChunkFound { offset, chunk, summary } => {
            assert_eq!(*offset, 8);
            assert_eq!(chunk.id, ChunkId::gama());
            assert_eq!(chunk.crc, good ^ 1);
            assert!(!chunk.is_valid_chunk());
            assert_eq!(*summary, None);
        }
        other => panic!("unexpected record {:?}", other),
    }
    assert_eq!(report[2], Record::ChainEnd { reason: EndReason::CleanEof });
}

#[test]
fn stray_byte_reports_once_as_unused() {
    // Scenario: a single byte that matches nothing and sits beyond all
    // prior coverage.
    let buf = [0x41u8];
    let report = scan_report(&buf);
    assert_eq!(report.len(), 1);
    assert_eq!(report[0], Record::UnusedByte { offset: 0, value: 0x41 });
}

#[test]
fn broken_chain_ends_when_the_link_is_missing() {
    // A signature followed by one chunk and trailing garbage: the chain
    // breaks after the chunk, and the garbage bytes come back as unused.
    let mut buf = SIGNATURE.to_vec();
    buf.extend_from_slice(&good_chunk_bytes(ChunkId::gama(), &45455u32.to_be_bytes()));
    buf.extend_from_slice(&[0x01, 0x02]);
    let n = buf.len();
    let report = scan_report(&buf);
    assert_eq!(report.len(), 5);
    assert_eq!(report[0], Record::SignatureStart { offset: 0 });
    assert!(matches!(report[1], Record::ChunkFound { offset: 8, .. }));
    assert_eq!(report[2], Record::ChainEnd { reason: EndReason::BrokenLink });
    assert_eq!(report[3], Record::UnusedByte { offset: n - 2, value: 0x01 });
    assert_eq!(report[4], Record::UnusedByte { offset: n - 1, value: 0x02 });
}

/// How often each offset of `[0, n)` is claimed by a reported span or an
/// unused-byte record.
fn coverage_counts(report: &[Record], n: usize) -> Vec<usize> {
    let mut counts = vec![0usize; n];
    for rec in report {
        match rec {
            Record::SignatureStart { offset } => {
                for o in *offset..*offset + 8 {
                    counts[o] += 1;
                }
            }
            Record::ChunkFound { offset, chunk, .. } => {
                for o in *offset..*offset + chunk.full_len() {
                    counts[o] += 1;
                }
            }
            Record::UnusedByte { offset, .. } => {
                counts[*offset] += 1;
            }
            Record::BareStart { .. } | Record::ChainEnd { .. } => {}
        }
    }
    counts
}

#[test]
fn coverage_partitions_an_unambiguous_buffer() {
    // With no overlapping candidates, every offset is claimed by exactly
    // one reported signature span, chunk span or unused-byte record.
    let mut buf = SIGNATURE.to_vec();
    buf.extend_from_slice(&good_chunk_bytes(ChunkId::ihdr(), &IHDR_MIN));
    buf.extend_from_slice(&good_chunk_bytes(ChunkId::idat(), &[9, 9, 9]));
    buf.extend_from_slice(&good_chunk_bytes(ChunkId::iend(), &[]));
    buf.extend_from_slice(&[0x00, 0x7F]);
    let report = scan_report(&buf);
    let counts = coverage_counts(&report, buf.len());
    for (o, count) in counts.iter().enumerate() {
        assert_eq!(*count, 1, "offset {} covered {} times", o, count);
    }
}

#[test]
fn coverage_diverges_on_engineered_overlap() {
    // The forward-only heuristic is known to double-report overlapping
    // candidates: a chunk whose payload itself parses as a chunk yields two
    // chains whose spans overlap, so those offsets are claimed twice.
    let mut buf = Vec::new();
    buf.extend_from_slice(&[0, 0, 0, 10]);
    buf.extend_from_slice(b"ABCD");
    // Payload: its first 8 bytes form a plausible inner chunk header.
    buf.extend_from_slice(&[0, 0, 0, 2]);
    buf.extend_from_slice(b"WXYZ");
    buf.extend_from_slice(&[0, 0]);
    buf.extend_from_slice(&[0, 0, 0, 0]);
    assert_eq!(buf.len(), 22);
    let outcome = scan(&buf);
    assert!(outcome.chunks[0].is_some());
    assert!(outcome.chunks[8].is_some());
    let report = scan_report(&buf);
    let counts = coverage_counts(&report, buf.len());
    for o in 0..8 {
        assert_eq!(counts[o], 1);
    }
    for o in 8..22 {
        assert_eq!(counts[o], 2, "offset {} inside both spans", o);
    }
}

#[test]
fn consumed_chunks_are_never_reported_twice() {
    // Two signatures sharing one trailing chunk: the first chain consumes
    // it, the second ends broken, and the chunk appears exactly once.
    let mut buf = SIGNATURE.to_vec();
    buf.extend_from_slice(&SIGNATURE);
    buf.extend_from_slice(&good_chunk_bytes(ChunkId::iend(), &[]));
    let report = scan_report(&buf);
    let chunk_records: Vec<&Record> = report
        .iter()
        .filter(|r| matches!(r, Record::ChunkFound { .. }))
        .collect();
    // Only the first signature's chain starts at offset 8, which holds the
    // second signature, not a chunk; the chunk at 16 is consumed by the
    // second chain.
    assert_eq!(chunk_records.len(), 1);
    assert!(matches!(chunk_records[0], Record::ChunkFound { offset: 16, .. }));
}

#[test]
fn scan_indexes_candidates_by_offset() {
    let mut buf = SIGNATURE.to_vec();
    buf.extend_from_slice(&good_chunk_bytes(ChunkId::iend(), &[]));
    let outcome = scan(&buf);
    assert_eq!(outcome.magics, vec![0]);
    assert_eq!(outcome.chunks.len(), buf.len());
    for (o, slot) in outcome.chunks.iter().enumerate() {
        if o == 8 {
            assert!(slot.is_some());
        } else {
            assert!(slot.is_none(), "unexpected candidate at {}", o);
        }
    }
    assert!(outcome.unused.is_empty());
}

#[test]
fn plte_rule_via_spec_validity() {
    let data = vec![1u8, 2, 3];
    let ok = Chunk { id: ChunkId::plte(), crc: crc(ChunkId::plte(), &data), data };
    assert!(ok.is_valid_spec());
    let data = vec![1u8, 2, 3, 4];
    let ragged = Chunk { id: ChunkId::plte(), crc: crc(ChunkId::plte(), &data), data };
    assert!(!ragged.is_valid_spec());
    let data = vec![];
    let empty = Chunk { id: ChunkId::plte(), crc: crc(ChunkId::plte(), &data), data };
    assert!(!empty.is_valid_spec());
}

#[test]
fn unknown_type_needs_only_structural_validity() {
    let data = vec![0xDEu8, 0xAD];
    let c = Chunk {
        id: ChunkId([0x61, 0x62, 0x63, 0x64]),
        crc: crc(ChunkId([0x61, 0x62, 0x63, 0x64]), &data),
        data,
    };
    assert!(c.is_valid_spec());
    let bad = Chunk { id: ChunkId([0x61, 0x62, 0x63, 0x64]), data: vec![0xDE, 0xAD], crc: 0 };
    assert!(!bad.is_valid_spec());
}

#[test]
fn full_chain_decodes_every_known_type() {
    let mut buf = SIGNATURE.to_vec();
    buf.extend_from_slice(&good_chunk_bytes(ChunkId::ihdr(), &IHDR_MIN));
    buf.extend_from_slice(&good_chunk_bytes(ChunkId::gama(), &45455u32.to_be_bytes()));
    buf.extend_from_slice(&good_chunk_bytes(ChunkId::srgb(), &[1]));
    let iccp: Vec<u8> = [&b"prof"[..], &[0u8, 0][..], &[0xAB][..]].concat();
    buf.extend_from_slice(&good_chunk_bytes(ChunkId::iccp(), &iccp));
    let itxt: Vec<u8> = [&b"Title"[..], &[0u8, 0, 0][..], &b"en"[..], &[0u8][..], &[0u8][..], &b"hi"[..]]
        .concat();
    buf.extend_from_slice(&good_chunk_bytes(ChunkId::itxt(), &itxt));
    let mut phys = 2835u32.to_be_bytes().to_vec();
    phys.extend_from_slice(&2835u32.to_be_bytes());
    phys.push(1);
    buf.extend_from_slice(&good_chunk_bytes(ChunkId::phys(), &phys));
    buf.extend_from_slice(&good_chunk_bytes(ChunkId::time(), &[0x07, 0xE0, 2, 29, 23, 59, 60]));
    buf.extend_from_slice(&good_chunk_bytes(ChunkId::idat(), &[1, 2, 3]));
    buf.extend_from_slice(&good_chunk_bytes(ChunkId::iend(), &[]));
    let report = scan_report(&buf);
    assert_eq!(report[0], Record::SignatureStart { offset: 0 });
    let kinds: Vec<&str> = report[1..]
        .iter()
        .map_while(|r| match r {
            Record::ChunkFound { summary: Some(s), .. } => Some(match s {
                ChunkSummary::Header(_) => "header",
                ChunkSummary::Gamma(_) => "gamma",
                ChunkSummary::StandardRgb(_) => "srgb",
                ChunkSummary::Profile(_) => "profile",
                ChunkSummary::Text(_) => "text",
                ChunkSummary::Physical(_) => "physical",
                ChunkSummary::Time(_) => "time",
                ChunkSummary::ImageData { .. } => "image_data",
                ChunkSummary::End => "end",
                _ => "other",
            }),
            _ => None,
        })
        .collect();
    assert_eq!(
        kinds,
        vec![
            "header",
            "gamma",
            "srgb",
            "profile",
            "text",
            "physical",
            "time",
            "image_data",
            "end"
        ]
    );
    assert_eq!(report[10], Record::ChainEnd { reason: EndReason::Iend });
}
