//! The iTXt chunk: a null-terminated keyword, compression flag and method
//! bytes, a null-terminated language tag, a null-terminated UTF-8 translated
//! keyword, and the text itself.

use vstd::prelude::*;
use crate::chunk::{Chunk, ChunkId, chunk_struct_valid, first_nul, id_itxt};

verus! {

/// A UTF-8 continuation byte.
pub open spec fn is_cont_byte(b: u8) -> bool {
    0x80 <= b && b <= 0xBF
}

/// Well-formed UTF-8, including the overlong, surrogate and upper-bound
/// restrictions, consumed one scalar encoding at a time from the front.
pub open spec fn is_utf8(s: Seq<u8>) -> bool
    decreases s.len(),
{
    if s.len() == 0 {
        true
    } else {
        let b0 = s[0];
        if b0 < 0x80 {
            is_utf8(s.skip(1))
        } else if 0xC2 <= b0 && b0 <= 0xDF {
            s.len() >= 2 && is_cont_byte(s[1]) && is_utf8(s.skip(2))
        } else if b0 == 0xE0 {
            s.len() >= 3 && 0xA0 <= s[1] && s[1] <= 0xBF && is_cont_byte(s[2]) && is_utf8(s.skip(3))
        } else if (0xE1 <= b0 && b0 <= 0xEC) || b0 == 0xEE || b0 == 0xEF {
            s.len() >= 3 && is_cont_byte(s[1]) && is_cont_byte(s[2]) && is_utf8(s.skip(3))
        } else if b0 == 0xED {
            s.len() >= 3 && 0x80 <= s[1] && s[1] <= 0x9F && is_cont_byte(s[2]) && is_utf8(s.skip(3))
        } else if b0 == 0xF0 {
            s.len() >= 4 && 0x90 <= s[1] && s[1] <= 0xBF && is_cont_byte(s[2]) && is_cont_byte(s[3])
                && is_utf8(s.skip(4))
        } else if 0xF1 <= b0 && b0 <= 0xF3 {
            s.len() >= 4 && is_cont_byte(s[1]) && is_cont_byte(s[2]) && is_cont_byte(s[3])
                && is_utf8(s.skip(4))
        } else if b0 == 0xF4 {
            s.len() >= 4 && 0x80 <= s[1] && s[1] <= 0x8F && is_cont_byte(s[2]) && is_cont_byte(s[3])
                && is_utf8(s.skip(4))
        } else {
            false
        }
    }
}

fn cont_byte(b: u8) -> (r: bool)
    ensures
        r == is_cont_byte(b),
{
    0x80 <= b && b <= 0xBF
}

/// Checks that `s` is well-formed UTF-8.
pub fn validate_utf8(s: &[u8]) -> (r: bool)
    ensures
        r == is_utf8(s@),
{
    let n = s.len();
    proof {
        assert(s@.skip(0) =~= s@);
    }
    let mut i: usize = 0;
    while i < n
        invariant
            i <= n,
            n == s@.len(),
            is_utf8(s@) == is_utf8(s@.skip(i as int)),
        decreases n - i,
    {
        let ghost tail = s@.skip(i as int);
        let b0 = s[i];
        let step: usize;
        if b0 < 0x80 {
            step = 1;
        } else if 0xC2 <= b0 && b0 <= 0xDF {
            if n - i < 2 || !cont_byte(s[i + 1]) {
                return false;
            }
            step = 2;
        } else if b0 == 0xE0 {
            if n - i < 3 || !(0xA0 <= s[i + 1] && s[i + 1] <= 0xBF) || !cont_byte(s[i + 2]) {
                return false;
            }
            step = 3;
        } else if (0xE1 <= b0 && b0 <= 0xEC) || b0 == 0xEE || b0 == 0xEF {
            if n - i < 3 || !cont_byte(s[i + 1]) || !cont_byte(s[i + 2]) {
                return false;
            }
            step = 3;
        } else if b0 == 0xED {
            if n - i < 3 || !(0x80 <= s[i + 1] && s[i + 1] <= 0x9F) || !cont_byte(s[i + 2]) {
                return false;
            }
            step = 3;
        } else if b0 == 0xF0 {
            if n - i < 4 || !(0x90 <= s[i + 1] && s[i + 1] <= 0xBF) || !cont_byte(s[i + 2])
                || !cont_byte(s[i + 3]) {
                return false;
            }
            step = 4;
        } else if 0xF1 <= b0 && b0 <= 0xF3 {
            if n - i < 4 || !cont_byte(s[i + 1]) || !cont_byte(s[i + 2]) || !cont_byte(s[i + 3]) {
                return false;
            }
            step = 4;
        } else if b0 == 0xF4 {
            if n - i < 4 || !(0x80 <= s[i + 1] && s[i + 1] <= 0x8F) || !cont_byte(s[i + 2])
                || !cont_byte(s[i + 3]) {
                return false;
            }
            step = 4;
        } else {
            return false;
        }
        proof {
            assert(tail.skip(step as int) =~= s@.skip(i + step));
        }
        i = i + step;
    }
    proof {
        assert(s@.skip(n as int) =~= Seq::<u8>::empty());
    }
    true
}

/// Decoded iTXt payload.
#[allow(non_camel_case_types)]
#[derive(PartialEq, Eq, Debug)]
pub struct iTXt {
    pub keyword: Vec<u8>,
    pub cflg: u8,
    pub cmthd: u8,
    pub lang: Vec<u8>,
    pub trans: Vec<u8>,
    pub text: Vec<u8>,
}

/// The mathematical content of a decoded iTXt payload.
#[verifier::ext_equal]
pub struct ItxtV {
    pub keyword: Seq<u8>,
    pub cflg: u8,
    pub cmthd: u8,
    pub lang: Seq<u8>,
    pub trans: Seq<u8>,
    pub text: Seq<u8>,
}

impl View for iTXt {
    type V = ItxtV;

    open spec fn view(&self) -> ItxtV {
        ItxtV {
            keyword: self.keyword@,
            cflg: self.cflg,
            cmthd: self.cmthd,
            lang: self.lang@,
            trans: self.trans@,
            text: self.text@,
        }
    }
}

/// Bytes after the keyword, its terminator and the two method bytes.
pub open spec fn itxt_rest(d: Seq<u8>) -> Seq<u8> {
    d.skip(first_nul(d) + 3)
}

/// Bytes after the language tag and its terminator.
pub open spec fn itxt_rest2(d: Seq<u8>) -> Seq<u8> {
    itxt_rest(d).skip(first_nul(itxt_rest(d)) + 1)
}

/// The payload splits into its five null-delimited parts and the translated
/// keyword is well-formed UTF-8.
pub open spec fn itxt_shape_ok(d: Seq<u8>) -> bool {
    let k1 = first_nul(d);
    &&& k1 < d.len()
    &&& d.len() >= k1 + 3
    &&& first_nul(itxt_rest(d)) < itxt_rest(d).len()
    &&& first_nul(itxt_rest2(d)) < itxt_rest2(d).len()
    &&& is_utf8(itxt_rest2(d).take(first_nul(itxt_rest2(d))))
}

/// The keyword: bytes before the first zero.
pub open spec fn itxt_keyword(d: Seq<u8>) -> Seq<u8> {
    d.take(first_nul(d))
}

/// The compression flag byte.
pub open spec fn itxt_cflg(d: Seq<u8>) -> u8 {
    d[first_nul(d) + 1]
}

/// The compression method byte.
pub open spec fn itxt_cmthd(d: Seq<u8>) -> u8 {
    d[first_nul(d) + 2]
}

/// The language tag.
pub open spec fn itxt_lang(d: Seq<u8>) -> Seq<u8> {
    itxt_rest(d).take(first_nul(itxt_rest(d)))
}

/// The translated keyword.
pub open spec fn itxt_trans(d: Seq<u8>) -> Seq<u8> {
    itxt_rest2(d).take(first_nul(itxt_rest2(d)))
}

/// The text bytes after the translated keyword's terminator.
pub open spec fn itxt_text(d: Seq<u8>) -> Seq<u8> {
    itxt_rest2(d).skip(first_nul(itxt_rest2(d)) + 1)
}

/// An iTXt payload has the five-part shape and a compression flag of 0 or 1.
pub open spec fn itxt_payload_valid(d: Seq<u8>) -> bool {
    itxt_shape_ok(d) && (itxt_cflg(d) == 0 || itxt_cflg(d) == 1)
}

impl iTXt {
    /// Decodes the payload of a structurally valid iTXt chunk.
    pub fn new(chunk: &Chunk) -> (r: Option<iTXt>)
        ensures
            r is Some <==> (chunk_struct_valid(*chunk) && chunk.id.0@ == id_itxt()
                && itxt_shape_ok(chunk.data@)),
            r matches Some(t) ==> t.keyword@ == itxt_keyword(chunk.data@) && t.cflg == itxt_cflg(
                chunk.data@,
            ) && t.cmthd == itxt_cmthd(chunk.data@) && t.lang@ == itxt_lang(chunk.data@)
                && t.trans@ == itxt_trans(chunk.data@) && t.text@ == itxt_text(chunk.data@),
    {
        if chunk.is_valid_chunk() && chunk.id == ChunkId::itxt() {
            Self::new_slice(chunk.data.as_slice())
        } else {
            None
        }
    }

    /// Splits a bare payload into its five null-delimited parts.
    pub fn new_slice(chunk: &[u8]) -> (r: Option<iTXt>)
        ensures
            r is Some <==> itxt_shape_ok(chunk@),
            r matches Some(t) ==> t.keyword@ == itxt_keyword(chunk@) && t.cflg == itxt_cflg(chunk@)
                && t.cmthd == itxt_cmthd(chunk@) && t.lang@ == itxt_lang(chunk@) && t.trans@
                == itxt_trans(chunk@) && t.text@ == itxt_text(chunk@),
    {
        let n = chunk.len();
        let n1 = crate::chunk::find_nul(chunk, 0);
        proof {
            assert(chunk@.skip(0) =~= chunk@);
        }
        if n1 == n || n - n1 < 3 {
            return None;
        }
        let cflg = chunk[n1 + 1];
        let cmthd = chunk[n1 + 2];
        let n2 = crate::chunk::find_nul(chunk, n1 + 3);
        proof {
            assert(chunk@.skip(n1 + 3) =~= itxt_rest(chunk@));
        }
        if n2 == n {
            return None;
        }
        let n3 = crate::chunk::find_nul(chunk, n2 + 1);
        proof {
            assert(chunk@.skip(n2 + 1) =~= itxt_rest2(chunk@));
        }
        if n3 == n {
            return None;
        }
        let trans = crate::copy_range(chunk, n2 + 1, n3);
        proof {
            assert(trans@ =~= itxt_trans(chunk@));
        }
        if !validate_utf8(trans.as_slice()) {
            return None;
        }
        let keyword = crate::copy_range(chunk, 0, n1);
        let lang = crate::copy_range(chunk, n1 + 3, n2);
        let text = crate::copy_range(chunk, n3 + 1, n);
        proof {
            assert(keyword@ =~= itxt_keyword(chunk@));
            assert(lang@ =~= itxt_lang(chunk@));
            assert(text@ =~= itxt_text(chunk@));
        }
        Some(iTXt { keyword, cflg, cmthd, lang, trans, text })
    }

    /// The compression flag must be 0 (plain) or 1 (compressed).
    pub fn is_valid(&self) -> (r: bool)
        ensures
            r == (self.cflg == 0 || self.cflg == 1),
    {
        matches!(self.cflg, 0 | 1)
    }
}

} // verus!
