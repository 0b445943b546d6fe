//! The pHYs chunk: physical pixel dimensions — two big-endian 32-bit
//! densities and one unit byte.

use vstd::prelude::*;
use crate::be32;
use crate::chunk::{Chunk, ChunkId, chunk_struct_valid, id_phys};

verus! {

/// Decoded pHYs payload.
#[allow(non_camel_case_types)]
#[derive(Clone, Copy, PartialEq, Eq, Debug)]
pub struct pHYs {
    pub ppx: u32,
    pub ppy: u32,
    pub unit: u8,
}

/// The pHYs view decoded from a 9-byte payload.
pub open spec fn phys_of(d: Seq<u8>) -> pHYs {
    pHYs { ppx: be32(d.subrange(0, 4)) as u32, ppy: be32(d.subrange(4, 8)) as u32, unit: d[8] }
}

/// A pHYs payload is nine bytes whose unit byte is 0 (aspect ratio only)
/// or 1 (pixels per metre).
pub open spec fn phys_payload_valid(d: Seq<u8>) -> bool {
    d.len() == 9 && (d[8] == 0 || d[8] == 1)
}

impl pHYs {
    /// Decodes the payload of a structurally valid pHYs chunk.
    pub fn new(chunk: &Chunk) -> (r: Option<pHYs>)
        ensures
            r is Some <==> (chunk_struct_valid(*chunk) && chunk.id.0@ == id_phys()
                && chunk.data@.len() == 9),
            r matches Some(p) ==> p == phys_of(chunk.data@),
    {
        if chunk.is_valid_chunk() && chunk.id == ChunkId::phys() {
            Self::new_slice(chunk.data.as_slice())
        } else {
            None
        }
    }

    /// Decodes a bare 9-byte payload.
    pub fn new_slice(chunk: &[u8]) -> (r: Option<pHYs>)
        ensures
            r is Some <==> chunk@.len() == 9,
            r matches Some(p) ==> p == phys_of(chunk@),
    {
        if chunk.len() == 9 {
            proof {
                crate::lemma_be32_bounds(chunk@.subrange(0, 4));
                crate::lemma_be32_bounds(chunk@.subrange(4, 8));
            }
            Some(
                pHYs {
                    ppx: crate::read_be32(chunk, 0),
                    ppy: crate::read_be32(chunk, 4),
                    unit: chunk[8],
                },
            )
        } else {
            None
        }
    }

    /// Pixels per unit on the x axis.
    pub fn ppx(&self) -> (r: u32)
        ensures
            r == self.ppx,
    {
        self.ppx
    }

    /// Pixels per unit on the y axis.
    pub fn ppy(&self) -> (r: u32)
        ensures
            r == self.ppy,
    {
        self.ppy
    }

    /// Unit byte: 0 for unspecified aspect ratio, 1 for metres.
    pub fn unit(&self) -> (r: u8)
        ensures
            r == self.unit,
    {
        self.unit
    }

    /// The unit byte must be 0 or 1.
    pub fn is_valid(&self) -> (r: bool)
        ensures
            r == (self.unit == 0 || self.unit == 1),
    {
        self.unit == 0 || self.unit == 1
    }
}

} // verus!
