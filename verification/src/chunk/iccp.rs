//! The iCCP chunk: a null-terminated profile name followed by a
//! compression-method byte and the compressed ICC profile.

use vstd::prelude::*;
use crate::chunk::{Chunk, ChunkId, chunk_struct_valid, first_nul, has_nul, id_iccp};

verus! {

/// Decoded iCCP payload: the profile name before the first zero byte, and
/// the rest of the payload from that zero byte on.
#[allow(non_camel_case_types)]
#[derive(PartialEq, Eq, Debug)]
pub struct iCCP {
    pub name: Vec<u8>,
    pub data: Vec<u8>,
}

/// The mathematical content of a decoded iCCP payload.
#[verifier::ext_equal]
pub struct IccpV {
    pub name: Seq<u8>,
    pub data: Seq<u8>,
}

impl View for iCCP {
    type V = IccpV;

    open spec fn view(&self) -> IccpV {
        IccpV { name: self.name@, data: self.data@ }
    }
}

/// Profile-name bytes are restricted to the printable Latin-1 ranges.
pub open spec fn iccp_name_byte_ok(b: u8) -> bool {
    (0x20 <= b && b <= 0x7E) || 0xA1 <= b
}

/// No leading, trailing or consecutive spaces: every space-delimited segment
/// of the name is non-empty. An empty name has one empty segment, so it is
/// out too.
pub open spec fn name_segments_ok(n: Seq<u8>) -> bool {
    &&& n.len() > 0
    &&& n[0] != 0x20
    &&& n[n.len() - 1] != 0x20
    &&& forall|i: int| 0 <= i < n.len() - 1 ==> !(n[i] == 0x20 && #[trigger] n[i + 1] == 0x20)
}

/// Value rules over the two decoded parts: name charset and spacing, and a
/// two-byte prefix of the remainder (the terminator and the compression
/// method) that must both be zero.
pub open spec fn iccp_parts_valid(name: Seq<u8>, data: Seq<u8>) -> bool {
    &&& forall|i: int| 0 <= i < name.len() ==> iccp_name_byte_ok(#[trigger] name[i])
    &&& name_segments_ok(name)
    &&& data.len() >= 2
    &&& data[0] == 0
    &&& data[1] == 0
}

/// An iCCP payload splits at its first zero byte and both parts pass their
/// value rules.
pub open spec fn iccp_payload_valid(d: Seq<u8>) -> bool {
    has_nul(d) && iccp_parts_valid(d.take(first_nul(d)), d.skip(first_nul(d)))
}

impl iCCP {
    /// Decodes the payload of a structurally valid iCCP chunk.
    pub fn new(chunk: &Chunk) -> (r: Option<iCCP>)
        ensures
            r is Some <==> (chunk_struct_valid(*chunk) && chunk.id.0@ == id_iccp()
                && has_nul(chunk.data@)),
            r matches Some(c) ==> c.name@ == chunk.data@.take(first_nul(chunk.data@))
                && c.data@ == chunk.data@.skip(first_nul(chunk.data@)),
    {
        if chunk.is_valid_chunk() && chunk.id == ChunkId::iccp() {
            Self::new_slice(chunk.data.as_slice())
        } else {
            None
        }
    }

    /// Splits a bare payload at its first zero byte.
    pub fn new_slice(chunk: &[u8]) -> (r: Option<iCCP>)
        ensures
            r is Some <==> has_nul(chunk@),
            r matches Some(c) ==> c.name@ == chunk@.take(first_nul(chunk@)) && c.data@
                == chunk@.skip(first_nul(chunk@)),
    {
        let mid = crate::chunk::find_nul(chunk, 0);
        proof {
            assert(chunk@.skip(0) =~= chunk@);
        }
        if mid == chunk.len() {
            return None;
        }
        let name = crate::copy_range(chunk, 0, mid);
        let data = crate::copy_range(chunk, mid, chunk.len());
        proof {
            assert(chunk@.subrange(0, mid as int) =~= chunk@.take(first_nul(chunk@)));
            assert(chunk@.subrange(mid as int, chunk@.len() as int) =~= chunk@.skip(
                first_nul(chunk@),
            ));
        }
        Some(iCCP { name, data })
    }

    /// Name charset and spacing rules, and a zero compression-method prefix.
    pub fn is_valid(&self) -> (r: bool)
        ensures
            r == iccp_parts_valid(self.name@, self.data@),
    {
        let mut i: usize = 0;
        let n = self.name.len();
        while i < n
            invariant
                i <= n,
                n == self.name@.len(),
                forall|j: int| 0 <= j < i ==> iccp_name_byte_ok(#[trigger] self.name@[j]),
            decreases n - i,
        {
            let b = self.name[i];
            if !((0x20 <= b && b <= 0x7E) || 0xA1 <= b) {
                return false;
            }
            i = i + 1;
        }
        if n == 0 {
            return false;
        }
        if self.name[0] == 0x20 || self.name[n - 1] == 0x20 {
            return false;
        }
        let mut i: usize = 0;
        while i + 1 < n
            invariant
                i < n,
                n == self.name@.len(),
                n > 0,
                forall|j: int| 0 <= j < i ==> !(self.name@[j] == 0x20 && #[trigger] self.name@[j
                    + 1] == 0x20),
            decreases n - i,
        {
            if self.name[i] == 0x20 && self.name[i + 1] == 0x20 {
                return false;
            }
            i = i + 1;
        }
        self.data.len() >= 2 && self.data[0] == 0 && self.data[1] == 0
    }
}

} // verus!
