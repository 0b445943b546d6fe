//! Candidate scanning: the fixed 8-byte signature, the raw chunk parser at
//! an arbitrary offset, the chunk serializer, and the single pass that tries
//! both at every offset of a buffer.

use vstd::prelude::*;
use crate::be32;
use crate::chunk::{Chunk, ChunkId, ChunkV, id_valid};

verus! {

/// The fixed 8-byte PNG signature.
pub open spec fn png_signature() -> Seq<u8> {
    seq![0x89u8, 0x50u8, 0x4Eu8, 0x47u8, 0x0Du8, 0x0Au8, 0x1Au8, 0x0Au8]
}

/// The signature starts at offset `o` of `buf`.
pub open spec fn sig_at(buf: Seq<u8>, o: int) -> bool {
    0 <= o && o + 8 <= buf.len() && buf.subrange(o, o + 8) == png_signature()
}

/// Tests the 8-byte signature at offset `o`.
pub fn is_signature_at(buf: &[u8], o: usize) -> (r: bool)
    requires
        o <= buf@.len(),
    ensures
        r == sig_at(buf@, o as int),
{
    if buf.len() - o < 8 {
        return false;
    }
    let r = buf[o] == 0x89 && buf[o + 1] == 0x50 && buf[o + 2] == 0x4E && buf[o + 3] == 0x47
        && buf[o + 4] == 0x0D && buf[o + 5] == 0x0A && buf[o + 6] == 0x1A && buf[o + 7] == 0x0A;
    proof {
        let s = buf@.subrange(o as int, o + 8);
        if r {
            assert(s =~= png_signature());
        } else {
            assert(s[0] == buf@[o as int] && s[1] == buf@[o + 1] && s[2] == buf@[o + 2] && s[3]
                == buf@[o + 3] && s[4] == buf@[o + 4] && s[5] == buf@[o + 5] && s[6] == buf@[o + 6]
                && s[7] == buf@[o + 7]);
        }
    }
    r
}

/// The reasons a chunk parse fails at an offset; all are local to that
/// offset and never abort a scan.
#[derive(Clone, Copy, PartialEq, Eq, Structural, Debug)]
pub enum ParseErr {
    /// Too few bytes remain for a fixed-size field.
    UnexpectedEnd,
    /// The declared length exceeds 0x7FFFFFFF.
    ChunkTooLarge,
    /// A type-code byte falls outside the ASCII letter ranges.
    InvalidChunkType,
}

/// The declared payload length at offset `o`: the first four bytes,
/// big-endian.
pub open spec fn decl_len(buf: Seq<u8>, o: int) -> int {
    be32(buf.subrange(o, o + 4))
}

/// A chunk parses at offset `o`: eight header bytes are present, the type
/// code is well-formed, the declared length is within bounds, and the
/// payload plus the CRC trailer fit in the buffer. A CRC mismatch does not
/// fail the parse.
pub open spec fn chunk_at(buf: Seq<u8>, o: int) -> bool {
    &&& 0 <= o
    &&& o + 8 <= buf.len()
    &&& id_valid(buf.subrange(o + 4, o + 8))
    &&& decl_len(buf, o) <= 0x7FFFFFFF
    &&& o + 12 + decl_len(buf, o) <= buf.len()
}

/// Total bytes a chunk at offset `o` consumes: the 8 header bytes, the
/// payload, and the 4 CRC bytes.
pub open spec fn chunk_span(buf: Seq<u8>, o: int) -> int {
    12 + decl_len(buf, o)
}

/// The chunk parsed at offset `o`, when one parses there.
pub open spec fn chunk_v_at(buf: Seq<u8>, o: int) -> ChunkV {
    let l = decl_len(buf, o);
    ChunkV {
        id: buf.subrange(o + 4, o + 8),
        data: buf.subrange(o + 8, o + 8 + l),
        crc: be32(buf.subrange(o + 8 + l, o + 12 + l)) as u32,
    }
}

/// The error a failed parse at offset `o` reports: missing header bytes,
/// then a malformed type code, then an excessive length, then missing
/// payload or trailer bytes.
pub open spec fn parse_err_at(buf: Seq<u8>, o: int) -> ParseErr {
    if o + 8 > buf.len() {
        ParseErr::UnexpectedEnd
    } else if !id_valid(buf.subrange(o + 4, o + 8)) {
        ParseErr::InvalidChunkType
    } else if decl_len(buf, o) > 0x7FFFFFFF {
        ParseErr::ChunkTooLarge
    } else {
        ParseErr::UnexpectedEnd
    }
}

/// Decodes the length-prefixed, type-tagged, CRC-trailed record at offset
/// `o`. A CRC mismatch is not a failure: the stored CRC comes back in the
/// chunk, and structural validity is a separate question.
pub fn parse_chunk_at(buf: &[u8], o: usize) -> (r: Result<(Chunk, usize), ParseErr>)
    requires
        o <= buf@.len(),
    ensures
        r is Ok <==> chunk_at(buf@, o as int),
        r matches Ok((c, consumed)) ==> c@ == chunk_v_at(buf@, o as int) && consumed == chunk_span(
            buf@,
            o as int,
        ) && o + consumed <= buf@.len(),
        r matches Err(e) ==> e == parse_err_at(buf@, o as int),
{
    let n = buf.len();
    if n - o < 8 {
        return Err(ParseErr::UnexpectedEnd);
    }
    let id = ChunkId([buf[o + 4], buf[o + 5], buf[o + 6], buf[o + 7]]);
    proof {
        assert(id.0@ =~= buf@.subrange(o + 4, o + 8));
    }
    if !id.is_valid() {
        return Err(ParseErr::InvalidChunkType);
    }
    let len32 = crate::read_be32(buf, o);
    if len32 > 0x7FFFFFFF {
        return Err(ParseErr::ChunkTooLarge);
    }
    let l = len32 as usize;
    if n - o < 12 || n - o - 12 < l {
        return Err(ParseErr::UnexpectedEnd);
    }
    let data = crate::copy_range(buf, o + 8, o + 8 + l);
    let crc = crate::read_be32(buf, o + 8 + l);
    proof {
        crate::lemma_be32_bounds(buf@.subrange(o + 8 + l, o + 12 + l));
    }
    Ok((Chunk { id, data, crc }, 12 + l))
}

/// Four big-endian bytes of a 32-bit value.
pub open spec fn be32_bytes(v: u32) -> Seq<u8> {
    seq![
        (v >> 24) as u8,
        ((v >> 16) & 0xFF) as u8,
        ((v >> 8) & 0xFF) as u8,
        (v & 0xFF) as u8,
    ]
}

/// Reading back four big-endian bytes recovers the value.
pub proof fn lemma_be32_roundtrip(v: u32)
    ensures
        be32(be32_bytes(v)) == v,
{
    let s = be32_bytes(v);
    assert(0x100_0000 * ((v >> 24) as u8 as int) + 0x1_0000 * (((v >> 16) & 0xFF) as u8 as int)
        + 0x100 * (((v >> 8) & 0xFF) as u8 as int) + ((v & 0xFF) as u8 as int) == v as int)
        by (bit_vector);
}

/// The serialized form of a chunk: big-endian payload length, the four
/// type-code bytes, the payload, and the stored CRC, big-endian.
pub open spec fn chunk_encoding(c: ChunkV) -> Seq<u8> {
    be32_bytes(c.data.len() as u32) + c.id + c.data + be32_bytes(c.crc)
}

/// Serializes a chunk as length, type code, payload and CRC trailer.
pub fn encode_chunk(c: &Chunk) -> (r: Vec<u8>)
    requires
        c.data@.len() <= 0x7FFFFFFF,
    ensures
        r@ == chunk_encoding(c@),
{
    let l = c.data.len() as u32;
    let mut r: Vec<u8> = Vec::new();
    r.push((l >> 24) as u8);
    r.push(((l >> 16) & 0xFF) as u8);
    r.push(((l >> 8) & 0xFF) as u8);
    r.push((l & 0xFF) as u8);
    r.push(c.id.0[0]);
    r.push(c.id.0[1]);
    r.push(c.id.0[2]);
    r.push(c.id.0[3]);
    let mut i: usize = 0;
    while i < c.data.len()
        invariant
            i <= c.data@.len(),
            r@ == be32_bytes(c.data@.len() as u32) + c.id.0@ + c.data@.take(i as int),
        decreases c.data@.len() - i,
    {
        r.push(c.data[i]);
        i = i + 1;
        proof {
            assert(r@ =~= be32_bytes(c.data@.len() as u32) + c.id.0@ + c.data@.take(i as int));
        }
    }
    let crc = c.crc;
    r.push((crc >> 24) as u8);
    r.push(((crc >> 16) & 0xFF) as u8);
    r.push(((crc >> 8) & 0xFF) as u8);
    r.push((crc & 0xFF) as u8);
    proof {
        assert(c.data@.take(c.data@.len() as int) =~= c.data@);
        assert(r@ =~= chunk_encoding(c@));
    }
    r
}

/// The chunk candidate stored for offset `o`: the parsed chunk where one
/// parses and no signature takes the offset, nothing otherwise.
pub open spec fn cand_at(buf: Seq<u8>, o: int) -> Option<ChunkV> {
    if chunk_at(buf, o) && !sig_at(buf, o) {
        Some(chunk_v_at(buf, o))
    } else {
        None
    }
}

/// Bytes a successful candidate at offset `o` claims: 8 for a signature,
/// the full record for a chunk, none where neither matches.
pub open spec fn cand_span(buf: Seq<u8>, o: int) -> int {
    if sig_at(buf, o) {
        8
    } else if chunk_at(buf, o) {
        chunk_span(buf, o)
    } else {
        0
    }
}

/// The high-water coverage mark after scanning offsets below `k`: the
/// furthest end reached by any successful candidate found so far.
pub open spec fn high_water(buf: Seq<u8>, k: int) -> int
    decreases k,
{
    if k <= 0 {
        0
    } else {
        let prev = high_water(buf, k - 1);
        let sp = cand_span(buf, k - 1);
        if sp > 0 && k - 1 + sp > prev {
            k - 1 + sp
        } else {
            prev
        }
    }
}

/// Offset `o` is an unused byte: neither candidate matches there, and the
/// offset lies at or beyond the coverage mark the scan had reached.
pub open spec fn unused_at(buf: Seq<u8>, o: int) -> bool {
    !sig_at(buf, o) && !chunk_at(buf, o) && o >= high_water(buf, o)
}

/// The offsets below `k` where the signature matches, ascending.
pub open spec fn sig_offsets(buf: Seq<u8>, k: int) -> Seq<int>
    decreases k,
{
    if k <= 0 {
        Seq::empty()
    } else if sig_at(buf, k - 1) {
        sig_offsets(buf, k - 1) + seq![k - 1]
    } else {
        sig_offsets(buf, k - 1)
    }
}

/// The unused-byte offsets below `k`, ascending.
pub open spec fn unused_offsets(buf: Seq<u8>, k: int) -> Seq<int>
    decreases k,
{
    if k <= 0 {
        Seq::empty()
    } else if unused_at(buf, k - 1) {
        unused_offsets(buf, k - 1) + seq![k - 1]
    } else {
        unused_offsets(buf, k - 1)
    }
}

/// A sequence of machine offsets as mathematical integers.
pub open spec fn to_ints(s: Seq<usize>) -> Seq<int> {
    s.map_values(|x: usize| x as int)
}

/// A sequence of optional chunks as their mathematical contents.
pub open spec fn to_chunk_views(s: Seq<Option<Chunk>>) -> Seq<Option<ChunkV>> {
    s.map_values(
        |oc: Option<Chunk>|
            match oc {
                Some(c) => Some(c@),
                None => None,
            },
    )
}

/// What one pass over the buffer finds: every signature offset, a table of
/// chunk candidates keyed by offset, and the unused-byte offsets. Candidate
/// spans may overlap; overlap is expected, not an error.
pub struct ScanOutcome {
    /// Signature offsets, ascending.
    pub magics: Vec<usize>,
    /// One slot per buffer offset; `Some` where a chunk parses there.
    pub chunks: Vec<Option<Chunk>>,
    /// Unused-byte offsets, ascending.
    pub unused: Vec<usize>,
}

/// The mathematical content of a scan outcome.
#[verifier::ext_equal]
pub struct ScanOutcomeV {
    pub magics: Seq<int>,
    pub chunks: Seq<Option<ChunkV>>,
    pub unused: Seq<int>,
}

impl View for ScanOutcome {
    type V = ScanOutcomeV;

    open spec fn view(&self) -> ScanOutcomeV {
        ScanOutcomeV {
            magics: to_ints(self.magics@),
            chunks: to_chunk_views(self.chunks@),
            unused: to_ints(self.unused@),
        }
    }
}

/// The one scan outcome a buffer determines.
pub open spec fn scan_spec(buf: Seq<u8>) -> ScanOutcomeV {
    ScanOutcomeV {
        magics: sig_offsets(buf, buf.len() as int),
        chunks: Seq::new(buf.len(), |o: int| cand_at(buf, o)),
        unused: unused_offsets(buf, buf.len() as int),
    }
}

/// One pass over the whole buffer. Every offset is independently tried as a
/// signature start and as a chunk start; failures at one offset never stop
/// the pass. An offset becomes an unused byte only when neither attempt
/// succeeds and no earlier candidate's span has reached it.
pub fn scan(buf: &[u8]) -> (r: ScanOutcome)
    ensures
        r@ == scan_spec(buf@),
{
    let n = buf.len();
    let mut magics: Vec<usize> = Vec::new();
    let mut chunks: Vec<Option<Chunk>> = Vec::new();
    let mut unused: Vec<usize> = Vec::new();
    let mut next_byte: usize = 0;
    let mut start: usize = 0;
    while start < n
        invariant
            start <= n,
            n == buf@.len(),
            to_ints(magics@) == sig_offsets(buf@, start as int),
            chunks@.len() == start,
            forall|j: int| 0 <= j < start ==> to_chunk_views(chunks@)[j] == cand_at(buf@, j),
            next_byte == high_water(buf@, start as int),
            to_ints(unused@) == unused_offsets(buf@, start as int),
        decreases n - start,
    {
        if is_signature_at(buf, start) {
            magics.push(start);
            chunks.push(None);
            if start + 8 > next_byte {
                next_byte = start + 8;
            }
            proof {
                assert(to_ints(magics@) =~= sig_offsets(buf@, start + 1));
            }
        } else {
            match parse_chunk_at(buf, start) {
                Ok((c, consumed)) => {
                    chunks.push(Some(c));
                    if start + consumed > next_byte {
                        next_byte = start + consumed;
                    }
                },
                Err(_) => {
                    chunks.push(None);
                    if start >= next_byte {
                        unused.push(start);
                        proof {
                            assert(to_ints(unused@) =~= unused_offsets(buf@, start + 1));
                        }
                    }
                },
            }
        }
        start = start + 1;
    }
    let r = ScanOutcome { magics, chunks, unused };
    proof {
        assert(r@.chunks =~= scan_spec(buf@).chunks);
        assert(r@ =~~= scan_spec(buf@));
    }
    r
}

/// Round trip: a serialized chunk with a well-formed type code and a bounded
/// payload parses again at offset 0, yields the same type code, payload and
/// CRC, and consumes the whole encoding.
pub proof fn lemma_chunk_round_trip(c: ChunkV)
    requires
        id_valid(c.id),
        c.data.len() <= 0x7FFFFFFF,
    ensures
        chunk_at(chunk_encoding(c), 0),
        chunk_v_at(chunk_encoding(c), 0) == c,
        chunk_span(chunk_encoding(c), 0) == chunk_encoding(c).len(),
{
    let e = chunk_encoding(c);
    let l = c.data.len() as int;
    assert(e.len() == 12 + l);
    assert(e.subrange(0, 4) =~= be32_bytes(c.data.len() as u32));
    lemma_be32_roundtrip(c.data.len() as u32);
    assert(decl_len(e, 0) == l);
    assert(e.subrange(4, 8) =~= c.id);
    assert(e.subrange(8, 8 + l) =~= c.data);
    assert(e.subrange(8 + l, 12 + l) =~= be32_bytes(c.crc));
    lemma_be32_roundtrip(c.crc);
    assert(chunk_v_at(e, 0) =~~= c);
}

} // verus!
