//! The cHRM chunk: chromaticity coordinates as eight big-endian 32-bit
//! fixed-point values (white point, red, green, blue; x then y).

use vstd::prelude::*;
use crate::be32;
use crate::chunk::{Chunk, ChunkId, chunk_struct_valid, id_chrm};

verus! {

/// Decoded cHRM payload.
#[allow(non_camel_case_types)]
#[derive(Clone, Copy, PartialEq, Eq, Debug)]
pub struct cHRM {
    pub white_x: u32,
    pub white_y: u32,
    pub red_x: u32,
    pub red_y: u32,
    pub green_x: u32,
    pub green_y: u32,
    pub blue_x: u32,
    pub blue_y: u32,
}

/// The cHRM view decoded from a 32-byte payload.
pub open spec fn chrm_of(d: Seq<u8>) -> cHRM {
    cHRM {
        white_x: be32(d.subrange(0, 4)) as u32,
        white_y: be32(d.subrange(4, 8)) as u32,
        red_x: be32(d.subrange(8, 12)) as u32,
        red_y: be32(d.subrange(12, 16)) as u32,
        green_x: be32(d.subrange(16, 20)) as u32,
        green_y: be32(d.subrange(20, 24)) as u32,
        blue_x: be32(d.subrange(24, 28)) as u32,
        blue_y: be32(d.subrange(28, 32)) as u32,
    }
}

/// A cHRM payload is exactly 32 bytes; no value range is enforced.
pub open spec fn chrm_payload_valid(d: Seq<u8>) -> bool {
    d.len() == 32
}

impl cHRM {
    /// Decodes the payload of a structurally valid cHRM chunk.
    pub fn new(chunk: &Chunk) -> (r: Option<cHRM>)
        ensures
            r is Some <==> (chunk_struct_valid(*chunk) && chunk.id.0@ == id_chrm()
                && chunk.data@.len() == 32),
            r matches Some(c) ==> c == chrm_of(chunk.data@),
    {
        if chunk.is_valid_chunk() && chunk.id == ChunkId::chrm() {
            Self::new_slice(chunk.data.as_slice())
        } else {
            None
        }
    }

    /// Decodes a bare 32-byte payload.
    pub fn new_slice(chunk: &[u8]) -> (r: Option<cHRM>)
        ensures
            r is Some <==> chunk@.len() == 32,
            r matches Some(c) ==> c == chrm_of(chunk@),
    {
        if chunk.len() == 32 {
            proof {
                crate::lemma_be32_bounds(chunk@.subrange(0, 4));
                crate::lemma_be32_bounds(chunk@.subrange(4, 8));
                crate::lemma_be32_bounds(chunk@.subrange(8, 12));
                crate::lemma_be32_bounds(chunk@.subrange(12, 16));
                crate::lemma_be32_bounds(chunk@.subrange(16, 20));
                crate::lemma_be32_bounds(chunk@.subrange(20, 24));
                crate::lemma_be32_bounds(chunk@.subrange(24, 28));
                crate::lemma_be32_bounds(chunk@.subrange(28, 32));
            }
            Some(
                cHRM {
                    white_x: crate::read_be32(chunk, 0),
                    white_y: crate::read_be32(chunk, 4),
                    red_x: crate::read_be32(chunk, 8),
                    red_y: crate::read_be32(chunk, 12),
                    green_x: crate::read_be32(chunk, 16),
                    green_y: crate::read_be32(chunk, 20),
                    blue_x: crate::read_be32(chunk, 24),
                    blue_y: crate::read_be32(chunk, 28),
                },
            )
        } else {
            None
        }
    }

    /// cHRM imposes no value constraint beyond its shape.
    pub fn is_valid(&self) -> (r: bool)
        ensures
            r,
    {
        true
    }

    /// White-point x and y.
    pub fn white_point(&self) -> (r: (u32, u32))
        ensures
            r == (self.white_x, self.white_y),
    {
        (self.white_x, self.white_y)
    }

    /// Red primary x and y.
    pub fn red(&self) -> (r: (u32, u32))
        ensures
            r == (self.red_x, self.red_y),
    {
        (self.red_x, self.red_y)
    }

    /// Green primary x and y.
    pub fn green(&self) -> (r: (u32, u32))
        ensures
            r == (self.green_x, self.green_y),
    {
        (self.green_x, self.green_y)
    }

    /// Blue primary x and y.
    pub fn blue(&self) -> (r: (u32, u32))
        ensures
            r == (self.blue_x, self.blue_y),
    {
        (self.blue_x, self.blue_y)
    }
}

} // verus!
