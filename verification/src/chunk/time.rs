//! The tIME chunk: last-modification timestamp in seven bytes.

use vstd::prelude::*;
use crate::be16;
use crate::chunk::{Chunk, ChunkId, chunk_struct_valid, id_time};

verus! {

/// Decoded tIME payload.
#[allow(non_camel_case_types)]
#[derive(Clone, Copy, PartialEq, Eq, Debug)]
pub struct tIME {
    pub year: u16,
    pub month: u8,
    pub day: u8,
    pub hour: u8,
    pub minute: u8,
    pub second: u8,
}

/// The tIME view decoded from a 7-byte payload.
pub open spec fn time_of(d: Seq<u8>) -> tIME {
    tIME {
        year: be16(d.subrange(0, 2)) as u16,
        month: d[2],
        day: d[3],
        hour: d[4],
        minute: d[5],
        second: d[6],
    }
}

/// Every field but the year is range-checked; second 60 permits a leap second.
pub open spec fn time_fields_valid(t: tIME) -> bool {
    &&& 1 <= t.month <= 12
    &&& 1 <= t.day <= 31
    &&& t.hour <= 23
    &&& t.minute <= 59
    &&& t.second <= 60
}

/// A tIME payload is seven bytes of in-range calendar fields.
pub open spec fn time_payload_valid(d: Seq<u8>) -> bool {
    d.len() == 7 && time_fields_valid(time_of(d))
}

impl tIME {
    /// Decodes the payload of a structurally valid tIME chunk.
    pub fn new(chunk: &Chunk) -> (r: Option<tIME>)
        ensures
            r is Some <==> (chunk_struct_valid(*chunk) && chunk.id.0@ == id_time()
                && chunk.data@.len() == 7),
            r matches Some(t) ==> t == time_of(chunk.data@),
    {
        if chunk.is_valid_chunk() && chunk.id == ChunkId::time() {
            Self::new_slice(chunk.data.as_slice())
        } else {
            None
        }
    }

    /// Decodes a bare 7-byte payload.
    pub fn new_slice(chunk: &[u8]) -> (r: Option<tIME>)
        ensures
            r is Some <==> chunk@.len() == 7,
            r matches Some(t) ==> t == time_of(chunk@),
    {
        if chunk.len() == 7 {
            let year = (chunk[0] as u16) * 0x100 + (chunk[1] as u16);
            proof {
                let s = chunk@.subrange(0, 2);
                assert(s[0] == chunk@[0] && s[1] == chunk@[1]);
            }
            Some(
                tIME {
                    year,
                    month: chunk[2],
                    day: chunk[3],
                    hour: chunk[4],
                    minute: chunk[5],
                    second: chunk[6],
                },
            )
        } else {
            None
        }
    }

    /// Year, unconstrained.
    pub fn year(&self) -> (r: u16)
        ensures
            r == self.year,
    {
        self.year
    }

    /// Month of the year, 1 to 12 when valid.
    pub fn month(&self) -> (r: u8)
        ensures
            r == self.month,
    {
        self.month
    }

    /// Day of the month, 1 to 31 when valid.
    pub fn day(&self) -> (r: u8)
        ensures
            r == self.day,
    {
        self.day
    }

    /// Hour of the day, 0 to 23 when valid.
    pub fn hour(&self) -> (r: u8)
        ensures
            r == self.hour,
    {
        self.hour
    }

    /// Minute of the hour, 0 to 59 when valid.
    pub fn minute(&self) -> (r: u8)
        ensures
            r == self.minute,
    {
        self.minute
    }

    /// Second of the minute, 0 to 60 when valid.
    pub fn second(&self) -> (r: u8)
        ensures
            r == self.second,
    {
        self.second
    }

    /// All calendar fields are within their ranges.
    pub fn is_valid(&self) -> (r: bool)
        ensures
            r == time_fields_valid(*self),
    {
        1 <= self.month && self.month <= 12 && 1 <= self.day && self.day <= 31 && self.hour <= 23
            && self.minute <= 59 && self.second <= 60
    }
}

} // verus!
