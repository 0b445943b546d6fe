use pngscan::chunk::{Chunk, ChunkId};
use pngscan::chunk::ihdr::IHDR;
use pngscan::chunk::chrm::cHRM;
use pngscan::chunk::gama::gAMA;
use pngscan::chunk::iccp::iCCP;
use pngscan::chunk::itxt::{iTXt, validate_utf8};
use pngscan::chunk::phys::pHYs;
use pngscan::chunk::srgb::sRGB;
use pngscan::chunk::time::tIME;
use pngscan::crc::crc;

fn ihdr_with(colour_type: u8, bit_depth: u8) -> IHDR {
    IHDR {
        width: 1,
        height: 1,
        bit_depth,
        colour_type,
        compression_method: 0,
        filter_method: 0,
        interlace_method: 0,
    }
}

#[test]
fn ihdr_depth_compatibility_table() {
    assert!(ihdr_with(2, 8).is_valid());
    assert!(!ihdr_with(2, 4).is_valid());
    assert!(!ihdr_with(3, 16).is_valid());
    assert!(ihdr_with(0, 16).is_valid());
}

#[test]
fn ihdr_rejects_zero_dimensions_and_bad_methods() {
    let mut h = ihdr_with(0, 8);
    h.width = 0;
    assert!(!h.is_valid());
    let mut h = ihdr_with(0, 8);
    h.height = 0;
    assert!(!h.is_valid());
    let mut h = ihdr_with(0, 8);
    h.compression_method = 1;
    assert!(!h.is_valid());
    let mut h = ihdr_with(0, 8);
    h.filter_method = 1;
    assert!(!h.is_valid());
    let mut h = ihdr_with(0, 8);
    h.interlace_method = 2;
    assert!(!h.is_valid());
}

#[test]
fn ihdr_decodes_its_thirteen_bytes() {
    let data = vec![0u8, 0, 1, 0, 0, 0, 0, 2, 16, 2, 0, 0, 1];
    let c = Chunk {
        id: ChunkId::ihdr(),
        crc: crc(ChunkId::ihdr(), &data),
        data,
    };
    let h = IHDR::new(&c).unwrap();
    assert_eq!(h.width(), 256);
    assert_eq!(h.height(), 2);
    assert_eq!(h.bit_depth(), 16);
    assert_eq!(h.colour_type(), 2);
    assert_eq!(h.compression_method(), 0);
    assert_eq!(h.filter_method(), 0);
    assert_eq!(h.interlace_method(), 1);
    assert!(h.is_valid());
}

#[test]
fn ihdr_new_rejects_wrong_length_and_wrong_id() {
    let data = vec![0u8; 12];
    let c = Chunk {
        id: ChunkId::ihdr(),
        crc: crc(ChunkId::ihdr(), &data),
        data,
    };
    assert!(IHDR::new(&c).is_none());
    let data = vec![0u8; 13];
    let c = Chunk {
        id: ChunkId::idat(),
        crc: crc(ChunkId::idat(), &data),
        data,
    };
    assert!(IHDR::new(&c).is_none());
}

#[test]
fn gama_decodes_big_endian() {
    let g = gAMA::new_slice(&45455u32.to_be_bytes()).unwrap();
    assert_eq!(g.gamma(), 45455);
    assert!(g.is_valid());
    assert!(gAMA::new_slice(&[0, 0, 0]).is_none());
}

#[test]
fn chrm_decodes_eight_values() {
    let mut payload = Vec::new();
    for v in [1u32, 2, 3, 4, 5, 6, 7, 8] {
        payload.extend_from_slice(&v.to_be_bytes());
    }
    let c = cHRM::new_slice(&payload).unwrap();
    assert_eq!(c.white_point(), (1, 2));
    assert_eq!(c.red(), (3, 4));
    assert_eq!(c.green(), (5, 6));
    assert_eq!(c.blue(), (7, 8));
    assert!(c.is_valid());
    assert!(cHRM::new_slice(&payload[..31]).is_none());
}

#[test]
fn phys_decodes_and_checks_unit() {
    let mut payload = Vec::new();
    payload.extend_from_slice(&2835u32.to_be_bytes());
    payload.extend_from_slice(&2835u32.to_be_bytes());
    payload.push(1);
    let p = pHYs::new_slice(&payload).unwrap();
    assert_eq!(p.ppx(), 2835);
    assert_eq!(p.ppy(), 2835);
    assert_eq!(p.unit(), 1);
    assert!(p.is_valid());
    payload[8] = 2;
    let p = pHYs::new_slice(&payload).unwrap();
    assert!(!p.is_valid());
    assert!(pHYs::new_slice(&payload[..8]).is_none());
}

#[test]
fn srgb_accepts_the_four_intents() {
    for intent in 0u8..4 {
        let s = sRGB::new_slice(&[intent]).unwrap();
        assert!(s.is_valid());
    }
    let s = sRGB::new_slice(&[4]).unwrap();
    assert!(!s.is_valid());
    assert!(sRGB::new_slice(&[]).is_none());
    assert!(sRGB::new_slice(&[0, 0]).is_none());
}

#[test]
fn time_decodes_and_checks_ranges() {
    let t = tIME::new_slice(&[0x07, 0xE0, 2, 29, 23, 59, 60]).unwrap();
    assert_eq!(t.year(), 2016);
    assert_eq!(t.month(), 2);
    assert_eq!(t.day(), 29);
    assert_eq!(t.hour(), 23);
    assert_eq!(t.minute(), 59);
    assert_eq!(t.second(), 60);
    assert!(t.is_valid());
    let t = tIME::new_slice(&[0x07, 0xE0, 0, 1, 0, 0, 0]).unwrap();
    assert!(!t.is_valid());
    let t = tIME::new_slice(&[0x07, 0xE0, 1, 32, 0, 0, 0]).unwrap();
    assert!(!t.is_valid());
    let t = tIME::new_slice(&[0x07, 0xE0, 1, 1, 24, 0, 0]).unwrap();
    assert!(!t.is_valid());
    let t = tIME::new_slice(&[0x07, 0xE0, 1, 1, 0, 60, 0]).unwrap();
    assert!(!t.is_valid());
    let t = tIME::new_slice(&[0x07, 0xE0, 1, 1, 0, 0, 61]).unwrap();
    assert!(!t.is_valid());
    assert!(tIME::new_slice(&[0; 6]).is_none());
}

#[test]
fn iccp_splits_name_from_profile() {
    let payload: Vec<u8> = [&b"icc"[..], &[0u8, 0][..], &b"zz"[..]].concat();
    let p = iCCP::new_slice(&payload).unwrap();
    assert_eq!(p.name, b"icc");
    assert_eq!(p.data, [&[0u8, 0][..], b"zz"].concat());
    assert!(p.is_valid());
    assert!(iCCP::new_slice(b"no terminator").is_none());
}

#[test]
fn iccp_space_rule_accepts_inner_single_spaces() {
    // A regression guard: a well-spaced name must pass, not fail.
    let payload: Vec<u8> = [&b"icc profile v4"[..], &[0u8, 0][..], &b"zz"[..]].concat();
    let p = iCCP::new_slice(&payload).unwrap();
    assert!(p.is_valid());
}

#[test]
fn iccp_space_rule_rejects_empty_segments() {
    for name in [&b" icc"[..], &b"icc "[..], &b"a  b"[..], &b""[..]] {
        let payload: Vec<u8> = [name, &[0u8, 0][..], &b"zz"[..]].concat();
        let p = iCCP::new_slice(&payload).unwrap();
        assert!(!p.is_valid(), "name {:?} must be rejected", name);
    }
}

#[test]
fn iccp_rejects_bad_charset_and_bad_prefix() {
    let payload: Vec<u8> = [&[0x1Fu8][..], &[0u8, 0][..], &b"zz"[..]].concat();
    let p = iCCP::new_slice(&payload).unwrap();
    assert!(!p.is_valid());
    // Non-zero compression method byte.
    let payload: Vec<u8> = [&b"icc"[..], &[0u8, 1][..], &b"zz"[..]].concat();
    let p = iCCP::new_slice(&payload).unwrap();
    assert!(!p.is_valid());
    // Nothing after the terminator.
    let payload: Vec<u8> = [&b"icc"[..], &[0u8][..]].concat();
    let p = iCCP::new_slice(&payload).unwrap();
    assert!(!p.is_valid());
}

fn itxt_payload(keyword: &[u8], cflg: u8, cmthd: u8, lang: &[u8], trans: &[u8], text: &[u8]) -> Vec<u8> {
    let parts: [&[u8]; 8] = [keyword, &[0], &[cflg, cmthd], lang, &[0], trans, &[0], text];
    parts.concat()
}

#[test]
fn itxt_splits_its_five_parts() {
    let payload = itxt_payload(b"Comment", 0, 0, b"en", "Kommentar".as_bytes(), b"hello");
    let t = iTXt::new_slice(&payload).unwrap();
    assert_eq!(t.keyword, b"Comment");
    assert_eq!(t.cflg, 0);
    assert_eq!(t.cmthd, 0);
    assert_eq!(t.lang, b"en");
    assert_eq!(t.trans, "Kommentar".as_bytes());
    assert_eq!(t.text, b"hello");
    assert!(t.is_valid());
}

#[test]
fn itxt_compression_flag_rule() {
    let payload = itxt_payload(b"k", 1, 0, b"", b"", b"x");
    let t = iTXt::new_slice(&payload).unwrap();
    assert!(t.is_valid());
    let payload = itxt_payload(b"k", 2, 0, b"", b"", b"x");
    let t = iTXt::new_slice(&payload).unwrap();
    assert!(!t.is_valid());
}

#[test]
fn itxt_rejects_missing_separators_and_bad_utf8() {
    assert!(iTXt::new_slice(b"no nul at all").is_none());
    // Keyword terminator but nothing after it.
    assert!(iTXt::new_slice(&[b'k', 0]).is_none());
    // Missing the language terminator.
    assert!(iTXt::new_slice(&[b'k', 0, 0, 0, b'e', b'n']).is_none());
    // Translated keyword is not UTF-8.
    let payload = itxt_payload(b"k", 0, 0, b"en", &[0xFF, 0xFE], b"x");
    assert!(iTXt::new_slice(&payload).is_none());
}

#[test]
fn utf8_validator_matches_std() {
    let cases: [&[u8]; 12] = [
        b"",
        b"plain ascii",
        "\u{00FC}nicode \u{1F600}".as_bytes(),
        &[0xC2, 0x80],
        &[0xC0, 0xAF],        // overlong
        &[0xE0, 0x80, 0x80],  // overlong
        &[0xED, 0xA0, 0x80],  // surrogate
        &[0xF4, 0x90, 0x80, 0x80],  // above U+10FFFF
        &[0xF0, 0x9F, 0x98, 0x80],
        &[0x80],
        &[0xC2],
        &[0xFF],
    ];
    for bytes in cases {
        assert_eq!(
            validate_utf8(bytes),
            std::str::from_utf8(bytes).is_ok(),
            "bytes {:?}",
            bytes
        );
    }
}

#[test]
fn typed_views_require_matching_id_and_valid_crc() {
    let data = 45455u32.to_be_bytes().to_vec();
    let good = Chunk {
        id: ChunkId::gama(),
        crc: crc(ChunkId::gama(), &data),
        data: data.clone(),
    };
    assert!(gAMA::new(&good).is_some());
    let wrong_id = Chunk {
        id: ChunkId::idat(),
        crc: crc(ChunkId::idat(), &data),
        data: data.clone(),
    };
    assert!(gAMA::new(&wrong_id).is_none());
    let bad_crc = Chunk { id: ChunkId::gama(), data, crc: 0 };
    assert!(gAMA::new(&bad_crc).is_none());
}
