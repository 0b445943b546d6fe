//! The IHDR chunk: image header — dimensions, bit depth, colour type and
//! the compression, filter and interlace method bytes.

use vstd::prelude::*;
use crate::be32;
use crate::chunk::{Chunk, ChunkId, chunk_struct_valid, id_ihdr};

verus! {

/// Decoded IHDR payload.
#[derive(Clone, Copy, PartialEq, Eq, Debug)]
pub struct IHDR {
    pub width: u32,
    pub height: u32,
    pub bit_depth: u8,
    pub colour_type: u8,
    pub compression_method: u8,
    pub filter_method: u8,
    pub interlace_method: u8,
}

/// The IHDR view decoded from a 13-byte payload.
pub open spec fn ihdr_of(d: Seq<u8>) -> IHDR {
    IHDR {
        width: be32(d.subrange(0, 4)) as u32,
        height: be32(d.subrange(4, 8)) as u32,
        bit_depth: d[8],
        colour_type: d[9],
        compression_method: d[10],
        filter_method: d[11],
        interlace_method: d[12],
    }
}

/// The bit depths the standard permits for a colour type.
pub open spec fn depth_compatible(colour_type: u8, bit_depth: u8) -> bool {
    if colour_type == 0 {
        bit_depth == 1 || bit_depth == 2 || bit_depth == 4 || bit_depth == 8 || bit_depth == 16
    } else if colour_type == 3 {
        bit_depth == 1 || bit_depth == 2 || bit_depth == 4 || bit_depth == 8
    } else if colour_type == 2 || colour_type == 4 || colour_type == 6 {
        bit_depth == 8 || bit_depth == 16
    } else {
        false
    }
}

/// The header's value rules: non-zero dimensions, known bit depth and colour
/// type, zero compression and filter methods, interlace 0 or 1, and a bit
/// depth compatible with the colour type.
pub open spec fn ihdr_fields_valid(h: IHDR) -> bool {
    &&& h.width != 0
    &&& h.height != 0
    &&& (h.bit_depth == 1 || h.bit_depth == 2 || h.bit_depth == 4 || h.bit_depth == 8
        || h.bit_depth == 16)
    &&& (h.colour_type == 0 || h.colour_type == 2 || h.colour_type == 3 || h.colour_type == 4
        || h.colour_type == 6)
    &&& h.compression_method == 0
    &&& h.filter_method == 0
    &&& (h.interlace_method == 0 || h.interlace_method == 1)
    &&& depth_compatible(h.colour_type, h.bit_depth)
}

/// An IHDR payload is 13 bytes of in-range header fields.
pub open spec fn ihdr_payload_valid(d: Seq<u8>) -> bool {
    d.len() == 13 && ihdr_fields_valid(ihdr_of(d))
}

impl IHDR {
    /// Decodes the payload of a structurally valid IHDR chunk.
    pub fn new(chunk: &Chunk) -> (r: Option<IHDR>)
        ensures
            r is Some <==> (chunk_struct_valid(*chunk) && chunk.id.0@ == id_ihdr()
                && chunk.data@.len() == 13),
            r matches Some(h) ==> h == ihdr_of(chunk.data@),
    {
        if chunk.is_valid_chunk() && chunk.id == ChunkId::ihdr() && chunk.data.len() == 13 {
            let d = chunk.data.as_slice();
            proof {
                crate::lemma_be32_bounds(chunk.data@.subrange(0, 4));
                crate::lemma_be32_bounds(chunk.data@.subrange(4, 8));
            }
            Some(
                IHDR {
                    width: crate::read_be32(d, 0),
                    height: crate::read_be32(d, 4),
                    bit_depth: d[8],
                    colour_type: d[9],
                    compression_method: d[10],
                    filter_method: d[11],
                    interlace_method: d[12],
                },
            )
        } else {
            None
        }
    }

    /// Image width in pixels.
    pub fn width(&self) -> (r: u32)
        ensures
            r == self.width,
    {
        self.width
    }

    /// Image height in pixels.
    pub fn height(&self) -> (r: u32)
        ensures
            r == self.height,
    {
        self.height
    }

    /// Bits per sample or palette index.
    pub fn bit_depth(&self) -> (r: u8)
        ensures
            r == self.bit_depth,
    {
        self.bit_depth
    }

    /// Colour type code.
    pub fn colour_type(&self) -> (r: u8)
        ensures
            r == self.colour_type,
    {
        self.colour_type
    }

    /// Compression method byte; 0 is the only defined value.
    pub fn compression_method(&self) -> (r: u8)
        ensures
            r == self.compression_method,
    {
        self.compression_method
    }

    /// Filter method byte; 0 is the only defined value.
    pub fn filter_method(&self) -> (r: u8)
        ensures
            r == self.filter_method,
    {
        self.filter_method
    }

    /// Interlace method byte; 0 for none, 1 for Adam7.
    pub fn interlace_method(&self) -> (r: u8)
        ensures
            r == self.interlace_method,
    {
        self.interlace_method
    }

    /// All header value rules hold, including the colour-type and bit-depth
    /// compatibility table.
    pub fn is_valid(self) -> (r: bool)
        ensures
            r == ihdr_fields_valid(self),
    {
        if self.width != 0 && self.height != 0 && matches!(self.bit_depth, 1 | 2 | 4 | 8 | 16)
            && matches!(self.colour_type, 0 | 2 | 3 | 4 | 6) && self.compression_method == 0
            && self.filter_method == 0 && matches!(self.interlace_method, 0 | 1) {
            match self.colour_type {
                0 => matches!(self.bit_depth, 1 | 2 | 4 | 8 | 16),
                3 => matches!(self.bit_depth, 1 | 2 | 4 | 8),
                2 | 4 | 6 => matches!(self.bit_depth, 8 | 16),
                _ => false,
            }
        } else {
            false
        }
    }
}

} // verus!
