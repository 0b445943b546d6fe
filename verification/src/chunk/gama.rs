//! The gAMA chunk: image gamma as one big-endian 32-bit fixed-point value.

use vstd::prelude::*;
use crate::be32;
use crate::chunk::{Chunk, ChunkId, chunk_struct_valid, id_gama};

verus! {

/// Decoded gAMA payload.
#[allow(non_camel_case_types)]
#[derive(Clone, Copy, PartialEq, Eq, Debug)]
pub struct gAMA {
    pub gamma: u32,
}

/// The gAMA view decoded from a 4-byte payload.
pub open spec fn gama_of(d: Seq<u8>) -> gAMA {
    gAMA { gamma: be32(d) as u32 }
}

/// A gAMA payload is exactly four bytes; no value range is enforced.
pub open spec fn gama_payload_valid(d: Seq<u8>) -> bool {
    d.len() == 4
}

impl gAMA {
    /// Decodes the payload of a structurally valid gAMA chunk.
    pub fn new(chunk: &Chunk) -> (r: Option<gAMA>)
        ensures
            r is Some <==> (chunk_struct_valid(*chunk) && chunk.id.0@ == id_gama()
                && chunk.data@.len() == 4),
            r matches Some(g) ==> g == gama_of(chunk.data@),
    {
        if chunk.is_valid_chunk() && chunk.id == ChunkId::gama() {
            Self::new_slice(chunk.data.as_slice())
        } else {
            None
        }
    }

    /// Decodes a bare 4-byte payload.
    pub fn new_slice(chunk: &[u8]) -> (r: Option<gAMA>)
        ensures
            r is Some <==> chunk@.len() == 4,
            r matches Some(g) ==> g == gama_of(chunk@),
    {
        if chunk.len() == 4 {
            let gamma = crate::read_be32(chunk, 0);
            proof {
                assert(chunk@.subrange(0, 4) =~= chunk@);
                crate::lemma_be32_bounds(chunk@);
            }
            Some(gAMA { gamma })
        } else {
            None
        }
    }

    /// gAMA imposes no value constraint beyond its shape.
    pub fn is_valid(&self) -> (r: bool)
        ensures
            r,
    {
        true
    }

    /// Gamma times 100000.
    pub fn gamma(&self) -> (r: u32)
        ensures
            r == self.gamma,
    {
        self.gamma
    }
}

} // verus!
