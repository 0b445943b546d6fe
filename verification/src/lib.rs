//! Forensic scanner for PNG-shaped byte streams.
//!
//! The crate takes an arbitrary in-memory byte buffer — possibly truncated,
//! concatenated or corrupted — and recovers its PNG structure: every offset
//! where the 8-byte signature or a plausible chunk record starts, the chains
//! of successor-linked chunks rooted at signatures or standing bare, and the
//! bytes that no candidate accounts for.

use vstd::prelude::*;

pub mod chunk;
pub mod crc;
pub mod report;
pub mod scan;

verus! {

/// Big-endian interpretation of two bytes.
pub open spec fn be16(s: Seq<u8>) -> int {
    0x100 * s[0] + s[1]
}

/// Big-endian interpretation of four bytes.
pub open spec fn be32(s: Seq<u8>) -> int {
    0x100_0000 * s[0] + 0x1_0000 * s[1] + 0x100 * s[2] + s[3]
}

/// Reads `buf[o..o + 4]` as a big-endian 32-bit integer.
pub fn read_be32(buf: &[u8], o: usize) -> (r: u32)
    requires
        o + 4 <= buf@.len(),
    ensures
        r == be32(buf@.subrange(o as int, o + 4)),
{
    let b0 = buf[o];
    let b1 = buf[o + 1];
    let b2 = buf[o + 2];
    let b3 = buf[o + 3];
    let r = (b0 as u32) * 0x100_0000 + (b1 as u32) * 0x1_0000 + (b2 as u32) * 0x100 + (b3 as u32);
    proof {
        let s = buf@.subrange(o as int, o + 4);
        assert(s[0] == b0 && s[1] == b1 && s[2] == b2 && s[3] == b3);
    }
    r
}

/// Any four bytes read back as a value below 2^32.
pub proof fn lemma_be32_bounds(s: Seq<u8>)
    requires
        s.len() >= 4,
    ensures
        0 <= be32(s) <= 0xFFFFFFFF,
{
}

/// Copies `buf[from..to]` into a fresh vector.
pub fn copy_range(buf: &[u8], from: usize, to: usize) -> (r: Vec<u8>)
    requires
        from <= to <= buf@.len(),
    ensures
        r@ == buf@.subrange(from as int, to as int),
{
    let mut r: Vec<u8> = Vec::new();
    let mut i: usize = from;
    while i < to
        invariant
            from <= i <= to <= buf@.len(),
            r@ == buf@.subrange(from as int, i as int),
        decreases to - i,
    {
        r.push(buf[i]);
        i = i + 1;
        proof {
            assert(r@ =~= buf@.subrange(from as int, i as int));
        }
    }
    r
}

} // verus!
