//! Chunk type codes and the raw chunk record.

use vstd::prelude::*;

pub mod ihdr;
pub mod chrm;
pub mod gama;
pub mod iccp;
pub mod itxt;
pub mod phys;
pub mod srgb;
pub mod time;

verus! {

/// Index of the first zero byte of `s`, or `s.len()` when none occurs.
pub open spec fn first_nul(s: Seq<u8>) -> int
    decreases s.len(),
{
    if s.len() == 0 {
        0
    } else if s[0] == 0 {
        0
    } else {
        1 + first_nul(s.skip(1))
    }
}

/// `s` holds at least one zero byte.
pub open spec fn has_nul(s: Seq<u8>) -> bool {
    first_nul(s) < s.len()
}

/// The first-zero index is in range, lands on a zero when one exists, and
/// everything before it is non-zero.
pub proof fn lemma_first_nul(s: Seq<u8>)
    ensures
        0 <= first_nul(s) <= s.len(),
        first_nul(s) < s.len() ==> s[first_nul(s)] == 0,
        forall|j: int| 0 <= j < first_nul(s) ==> s[j] != 0,
    decreases s.len(),
{
    if s.len() == 0 {
    } else if s[0] == 0 {
    } else {
        lemma_first_nul(s.skip(1));
        assert forall|j: int| 0 <= j < first_nul(s) implies s[j] != 0 by {
            if j > 0 {
                assert(s.skip(1)[j - 1] != 0);
            }
        }
    }
}

/// Any index with those three properties is the first-zero index.
pub proof fn lemma_first_nul_unique(s: Seq<u8>, k: int)
    requires
        0 <= k <= s.len(),
        forall|j: int| 0 <= j < k ==> s[j] != 0,
        k < s.len() ==> s[k] == 0,
    ensures
        first_nul(s) == k,
{
    lemma_first_nul(s);
    if first_nul(s) < k {
        assert(s[first_nul(s)] != 0);
    }
    if first_nul(s) > k {
        assert(s[k] != 0);
    }
}

/// Finds the first zero byte of `s` at or after `from`.
pub fn find_nul(s: &[u8], from: usize) -> (r: usize)
    requires
        from <= s@.len(),
    ensures
        from <= r <= s@.len(),
        r - from == first_nul(s@.skip(from as int)),
        r < s@.len() ==> s@[r as int] == 0,
        forall|j: int| from <= j < r ==> s@[j] != 0,
{
    let mut i: usize = from;
    while i < s.len() && s[i] != 0
        invariant
            from <= i <= s@.len(),
            forall|j: int| from <= j < i ==> s@[j] != 0,
        decreases s@.len() - i,
    {
        i = i + 1;
    }
    proof {
        let sub = s@.skip(from as int);
        assert forall|j: int| 0 <= j < i - from implies sub[j] != 0 by {
            assert(s@[j + from] != 0);
        }
        lemma_first_nul_unique(sub, i - from);
    }
    i
}

/// Bit 0x20 of a type-code byte carries one property flag per byte position.
pub const DATA_BIT: u8 = 32;

/// A type-code byte must be an ASCII letter.
pub open spec fn is_letter_byte(b: u8) -> bool {
    (0x41 <= b && b <= 0x5A) || (0x61 <= b && b <= 0x7A)
}

/// All four bytes of a type code are ASCII letters.
pub open spec fn id_valid(s: Seq<u8>) -> bool {
    s.len() == 4 && forall|i: int| 0 <= i < 4 ==> is_letter_byte(#[trigger] s[i])
}

/// The four-byte chunk type code.
#[derive(Clone, Copy, Eq, Debug, Hash)]
pub struct ChunkId(pub [u8; 4]);

impl PartialEq for ChunkId {
    fn eq(&self, other: &ChunkId) -> (r: bool) {
        let r = self.0[0] == other.0[0] && self.0[1] == other.0[1] && self.0[2] == other.0[2]
            && self.0[3] == other.0[3];
        proof {
            if r {
                assert(self.0@ =~= other.0@);
            }
        }
        r
    }
}

impl vstd::std_specs::cmp::PartialEqSpecImpl for ChunkId {
    open spec fn obeys_eq_spec() -> bool {
        true
    }

    open spec fn eq_spec(&self, other: &ChunkId) -> bool {
        self.0@ == other.0@
    }
}

/// The type code `IHDR`.
pub open spec fn id_ihdr() -> Seq<u8> {
    seq![0x49u8, 0x48u8, 0x44u8, 0x52u8]
}

/// The type code `PLTE`.
pub open spec fn id_plte() -> Seq<u8> {
    seq![0x50u8, 0x4Cu8, 0x54u8, 0x45u8]
}

/// The type code `IDAT`.
pub open spec fn id_idat() -> Seq<u8> {
    seq![0x49u8, 0x44u8, 0x41u8, 0x54u8]
}

/// The type code `tRNS`.
pub open spec fn id_trns() -> Seq<u8> {
    seq![0x74u8, 0x52u8, 0x4Eu8, 0x53u8]
}

/// The type code `cHRM`.
pub open spec fn id_chrm() -> Seq<u8> {
    seq![0x63u8, 0x48u8, 0x52u8, 0x4Du8]
}

/// The type code `gAMA`.
pub open spec fn id_gama() -> Seq<u8> {
    seq![0x67u8, 0x41u8, 0x4Du8, 0x41u8]
}

/// The type code `iCCP`.
pub open spec fn id_iccp() -> Seq<u8> {
    seq![0x69u8, 0x43u8, 0x43u8, 0x50u8]
}

/// The type code `sBIT`.
pub open spec fn id_sbit() -> Seq<u8> {
    seq![0x73u8, 0x42u8, 0x49u8, 0x54u8]
}

/// The type code `sRGB`.
pub open spec fn id_srgb() -> Seq<u8> {
    seq![0x73u8, 0x52u8, 0x47u8, 0x42u8]
}

/// The type code `tIME`.
pub open spec fn id_time() -> Seq<u8> {
    seq![0x74u8, 0x49u8, 0x4Du8, 0x45u8]
}

/// The type code `pHYs`.
pub open spec fn id_phys() -> Seq<u8> {
    seq![0x70u8, 0x48u8, 0x59u8, 0x73u8]
}

/// The type code `iTXt`.
pub open spec fn id_itxt() -> Seq<u8> {
    seq![0x69u8, 0x54u8, 0x58u8, 0x74u8]
}

/// The type code `IEND`.
pub open spec fn id_iend() -> Seq<u8> {
    seq![0x49u8, 0x45u8, 0x4Eu8, 0x44u8]
}

impl ChunkId {
    /// The `IHDR` type code.
    pub fn ihdr() -> (r: ChunkId)
        ensures
            r.0@ == id_ihdr(),
    {
        let r = ChunkId([0x49, 0x48, 0x44, 0x52]);
        proof {
            assert(r.0@ =~= id_ihdr());
        }
        r
    }

    /// The `PLTE` type code.
    pub fn plte() -> (r: ChunkId)
        ensures
            r.0@ == id_plte(),
    {
        let r = ChunkId([0x50, 0x4C, 0x54, 0x45]);
        proof {
            assert(r.0@ =~= id_plte());
        }
        r
    }

    /// The `IDAT` type code.
    pub fn idat() -> (r: ChunkId)
        ensures
            r.0@ == id_idat(),
    {
        let r = ChunkId([0x49, 0x44, 0x41, 0x54]);
        proof {
            assert(r.0@ =~= id_idat());
        }
        r
    }

    /// The `tRNS` type code.
    pub fn trns() -> (r: ChunkId)
        ensures
            r.0@ == id_trns(),
    {
        let r = ChunkId([0x74, 0x52, 0x4E, 0x53]);
        proof {
            assert(r.0@ =~= id_trns());
        }
        r
    }

    /// The `cHRM` type code.
    pub fn chrm() -> (r: ChunkId)
        ensures
            r.0@ == id_chrm(),
    {
        let r = ChunkId([0x63, 0x48, 0x52, 0x4D]);
        proof {
            assert(r.0@ =~= id_chrm());
        }
        r
    }

    /// The `gAMA` type code.
    pub fn gama() -> (r: ChunkId)
        ensures
            r.0@ == id_gama(),
    {
        let r = ChunkId([0x67, 0x41, 0x4D, 0x41]);
        proof {
            assert(r.0@ =~= id_gama());
        }
        r
    }

    /// The `iCCP` type code.
    pub fn iccp() -> (r: ChunkId)
        ensures
            r.0@ == id_iccp(),
    {
        let r = ChunkId([0x69, 0x43, 0x43, 0x50]);
        proof {
            assert(r.0@ =~= id_iccp());
        }
        r
    }

    /// The `sBIT` type code.
    pub fn sbit() -> (r: ChunkId)
        ensures
            r.0@ == id_sbit(),
    {
        let r = ChunkId([0x73, 0x42, 0x49, 0x54]);
        proof {
            assert(r.0@ =~= id_sbit());
        }
        r
    }

    /// The `sRGB` type code.
    pub fn srgb() -> (r: ChunkId)
        ensures
            r.0@ == id_srgb(),
    {
        let r = ChunkId([0x73, 0x52, 0x47, 0x42]);
        proof {
            assert(r.0@ =~= id_srgb());
        }
        r
    }

    /// The `tIME` type code.
    pub fn time() -> (r: ChunkId)
        ensures
            r.0@ == id_time(),
    {
        let r = ChunkId([0x74, 0x49, 0x4D, 0x45]);
        proof {
            assert(r.0@ =~= id_time());
        }
        r
    }

    /// The `pHYs` type code.
    pub fn phys() -> (r: ChunkId)
        ensures
            r.0@ == id_phys(),
    {
        let r = ChunkId([0x70, 0x48, 0x59, 0x73]);
        proof {
            assert(r.0@ =~= id_phys());
        }
        r
    }

    /// The `iTXt` type code.
    pub fn itxt() -> (r: ChunkId)
        ensures
            r.0@ == id_itxt(),
    {
        let r = ChunkId([0x69, 0x54, 0x58, 0x74]);
        proof {
            assert(r.0@ =~= id_itxt());
        }
        r
    }

    /// The `IEND` type code.
    pub fn iend() -> (r: ChunkId)
        ensures
            r.0@ == id_iend(),
    {
        let r = ChunkId([0x49, 0x45, 0x4E, 0x44]);
        proof {
            assert(r.0@ =~= id_iend());
        }
        r
    }

    /// Each byte of a chunk type is restricted to
    /// the hexadecimal values 41 to 5A and 61 to 7A.
    pub fn is_valid(self) -> (r: bool)
        ensures
            r == id_valid(self.0@),
    {
        let r = Self::letter(self.0[0]) && Self::letter(self.0[1]) && Self::letter(self.0[2])
            && Self::letter(self.0[3]);
        proof {
            if r {
                assert(forall|i: int| 0 <= i < 4 ==> is_letter_byte(#[trigger] self.0@[i]));
            }
        }
        r
    }

    fn letter(b: u8) -> (r: bool)
        ensures
            r == is_letter_byte(b),
    {
        (0x41 <= b && b <= 0x5A) || (0x61 <= b && b <= 0x7A)
    }

    /// Bit 0x20 of byte 0 clear: the chunk is critical for display.
    pub fn is_display_critical(self) -> (r: bool)
        ensures
            r == (self.0@[0] & DATA_BIT == 0),
    {
        (self.0[0] & DATA_BIT) == 0
    }

    /// Bit 0x20 of byte 1 clear: the type is defined by the standard, not private.
    pub fn is_standard_defined(self) -> (r: bool)
        ensures
            r == (self.0@[1] & DATA_BIT == 0),
    {
        (self.0[1] & DATA_BIT) == 0
    }

    /// Bit 0x20 of byte 2: reserved, must be clear in conforming streams.
    pub fn is_reserved(self) -> (r: bool)
        ensures
            r == (self.0@[2] & DATA_BIT != 0),
    {
        (self.0[2] & DATA_BIT) != 0
    }

    /// Bit 0x20 of byte 3 set: the chunk is safe to copy unmodified.
    pub fn is_safe_to_copy(self) -> (r: bool)
        ensures
            r == (self.0@[3] & DATA_BIT != 0),
    {
        (self.0[3] & DATA_BIT) != 0
    }
}

/// A length-prefixed, type-tagged, CRC-trailed record.
#[derive(Debug, PartialEq, Eq)]
pub struct Chunk {
    pub id: ChunkId,
    pub data: Vec<u8>,
    pub crc: u32,
}

/// Structural validity: the type code is well-formed and the stored CRC
/// agrees with the checksum of type code plus payload.
pub open spec fn chunk_struct_valid(c: Chunk) -> bool {
    chunk_v_struct_valid(c@)
}

/// The mathematical content of a chunk: its type-code bytes, payload bytes
/// and stored CRC.
#[verifier::ext_equal]
pub struct ChunkV {
    pub id: Seq<u8>,
    pub data: Seq<u8>,
    pub crc: u32,
}

impl View for Chunk {
    type V = ChunkV;

    open spec fn view(&self) -> ChunkV {
        ChunkV { id: self.id.0@, data: self.data@, crc: self.crc }
    }
}

/// Structural validity stated over a chunk's mathematical content.
pub open spec fn chunk_v_struct_valid(c: ChunkV) -> bool {
    id_valid(c.id) && crate::crc::crc_spec(c.id, c.data) == c.crc
}

/// Spec validity stated over a chunk's mathematical content.
pub open spec fn chunk_v_spec_valid(c: ChunkV) -> bool {
    chunk_v_struct_valid(c) && type_rules_ok(c.id, c.data)
}

/// The per-type payload rule for a type code: known types check the shape
/// and value rules of their payload, unknown types pass unconditionally.
pub open spec fn type_rules_ok(id: Seq<u8>, d: Seq<u8>) -> bool {
    if id == id_ihdr() {
        ihdr::ihdr_payload_valid(d)
    } else if id == id_plte() {
        d.len() % 3 == 0 && d.len() > 0
    } else if id == id_idat() {
        true
    } else if id == id_trns() {
        true
    } else if id == id_chrm() {
        chrm::chrm_payload_valid(d)
    } else if id == id_gama() {
        gama::gama_payload_valid(d)
    } else if id == id_iccp() {
        iccp::iccp_payload_valid(d)
    } else if id == id_sbit() {
        true
    } else if id == id_srgb() {
        srgb::srgb_payload_valid(d)
    } else if id == id_time() {
        time::time_payload_valid(d)
    } else if id == id_phys() {
        phys::phys_payload_valid(d)
    } else if id == id_itxt() {
        itxt::itxt_payload_valid(d)
    } else if id == id_iend() {
        d.len() == 0
    } else {
        true
    }
}

/// Spec validity: structural validity plus the per-type payload rule.
pub open spec fn chunk_spec_valid(c: Chunk) -> bool {
    chunk_v_spec_valid(c@)
}

impl Chunk {
    /// Does the CRC match the data and is it a valid id?
    pub fn is_valid_chunk(&self) -> (r: bool)
        ensures
            r == chunk_struct_valid(*self),
    {
        self.id.is_valid() && crate::crc::crc(self.id, self.data.as_slice()) == self.crc
    }

    /// Does the chunk match the spec? Structural validity plus the
    /// shape and value rules of its type, if the type is a known one.
    pub fn is_valid_spec(&self) -> (r: bool)
        ensures
            r == chunk_spec_valid(*self),
    {
        if !self.is_valid_chunk() {
            return false;
        }
        if self.id == ChunkId::ihdr() {
            match ihdr::IHDR::new(self) {
                Some(h) => h.is_valid(),
                None => false,
            }
        } else if self.id == ChunkId::plte() {
            self.data.len() % 3 == 0 && self.data.len() > 0
        } else if self.id == ChunkId::idat() {
            true
        } else if self.id == ChunkId::trns() {
            true
        } else if self.id == ChunkId::chrm() {
            match chrm::cHRM::new(self) {
                Some(c) => c.is_valid(),
                None => false,
            }
        } else if self.id == ChunkId::gama() {
            match gama::gAMA::new(self) {
                Some(g) => g.is_valid(),
                None => false,
            }
        } else if self.id == ChunkId::iccp() {
            match iccp::iCCP::new(self) {
                Some(c) => c.is_valid(),
                None => false,
            }
        } else if self.id == ChunkId::sbit() {
            true
        } else if self.id == ChunkId::srgb() {
            match srgb::sRGB::new(self) {
                Some(s) => s.is_valid(),
                None => false,
            }
        } else if self.id == ChunkId::time() {
            match time::tIME::new(self) {
                Some(t) => t.is_valid(),
                None => false,
            }
        } else if self.id == ChunkId::phys() {
            match phys::pHYs::new(self) {
                Some(p) => p.is_valid(),
                None => false,
            }
        } else if self.id == ChunkId::itxt() {
            match itxt::iTXt::new(self) {
                Some(t) => t.is_valid(),
                None => false,
            }
        } else if self.id == ChunkId::iend() {
            self.data.len() == 0
        } else {
            true
        }
    }

    /// Total serialized size: 4 length bytes, 4 type bytes, payload, 4 CRC bytes.
    pub fn full_len(&self) -> (r: usize)
        requires
            self.data@.len() + 12 <= usize::MAX,
        ensures
            r == self.data@.len() + 12,
    {
        4 + 4 + self.data.len() + 4
    }
}

} // verus!
