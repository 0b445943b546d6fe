//! The sRGB chunk: one rendering-intent byte.

use vstd::prelude::*;
use crate::chunk::{Chunk, ChunkId, chunk_struct_valid, id_srgb};

verus! {

/// Decoded sRGB payload.
#[allow(non_camel_case_types)]
#[derive(Clone, Copy, PartialEq, Eq, Debug)]
pub struct sRGB {
    pub rendering_intent: u8,
}

/// The sRGB view decoded from a 1-byte payload.
pub open spec fn srgb_of(d: Seq<u8>) -> sRGB {
    sRGB { rendering_intent: d[0] }
}

/// An sRGB payload is one byte naming an intent: 0 perceptual, 1 relative
/// colorimetric, 2 saturation, 3 absolute colorimetric.
pub open spec fn srgb_payload_valid(d: Seq<u8>) -> bool {
    d.len() == 1 && d[0] < 4
}

impl sRGB {
    /// Decodes the payload of a structurally valid sRGB chunk.
    pub fn new(chunk: &Chunk) -> (r: Option<sRGB>)
        ensures
            r is Some <==> (chunk_struct_valid(*chunk) && chunk.id.0@ == id_srgb()
                && chunk.data@.len() == 1),
            r matches Some(s) ==> s == srgb_of(chunk.data@),
    {
        if chunk.is_valid_chunk() && chunk.id == ChunkId::srgb() {
            Self::new_slice(chunk.data.as_slice())
        } else {
            None
        }
    }

    /// Decodes a bare 1-byte payload.
    pub fn new_slice(chunk: &[u8]) -> (r: Option<sRGB>)
        ensures
            r is Some <==> chunk@.len() == 1,
            r matches Some(s) ==> s == srgb_of(chunk@),
    {
        if chunk.len() == 1 {
            Some(sRGB { rendering_intent: chunk[0] })
        } else {
            None
        }
    }

    /// The intent byte must name one of the four defined intents.
    pub fn is_valid(&self) -> (r: bool)
        ensures
            r == (self.rendering_intent < 4),
    {
        self.rendering_intent < 4
    }
}

} // verus!
