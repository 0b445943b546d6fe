//! Table-driven reflected CRC-32 over a chunk's type code and payload.
//!
//! Parameters: polynomial 0xEDB88320, initial accumulator 0xFFFFFFFF, final
//! value XORed with 0xFFFFFFFF. The checksum runs over the four type-code
//! bytes followed by the payload, with no seam between the two regions.

use vstd::prelude::*;
use crate::chunk::ChunkId;

verus! {

/// One round of the bitwise CRC recurrence on a table cell.
pub open spec fn crc_cell_round(c: u32) -> u32 {
    if c & 1 == 1 {
        0xedb88320u32 ^ ((c >> 1) & 0x7FFFFFFF)
    } else {
        (c >> 1) & 0x7FFFFFFF
    }
}

/// The cell round applied `k` times.
pub open spec fn crc_cell_rounds(c: u32, k: nat) -> u32
    decreases k,
{
    if k == 0 {
        c
    } else {
        crc_cell_round(crc_cell_rounds(c, (k - 1) as nat))
    }
}

/// Entry `n` of the 256-entry lookup table: eight rounds on `n`.
pub open spec fn crc_table_entry(n: nat) -> u32 {
    crc_cell_rounds(n as u32, 8)
}

/// Folding one byte into a running CRC accumulator.
pub open spec fn crc_push_byte(c: u32, b: u8) -> u32 {
    crc_table_entry(((c ^ (b as u32)) & 0xff) as nat) ^ ((c >> 8) & 0xFFFFFF)
}

/// A running CRC accumulator updated with every byte of `s` in order.
pub open spec fn update_crc_spec(c: u32, s: Seq<u8>) -> u32
    decreases s.len(),
{
    if s.len() == 0 {
        c
    } else {
        crc_push_byte(update_crc_spec(c, s.drop_last()), s.last())
    }
}

/// The CRC-32 of a chunk: accumulator initialized to all ones, run over the
/// four type-code bytes and then the payload, complemented at the end.
pub open spec fn crc_spec(id: Seq<u8>, data: Seq<u8>) -> u32 {
    update_crc_spec(update_crc_spec(0xffffffffu32, id), data) ^ 0xffffffffu32
}

/// Make the table for a fast CRC.
fn make_crc_table() -> (table: Vec<u32>)
    ensures
        table@.len() == 256,
        forall|i: int| 0 <= i < 256 ==> table@[i] == crc_table_entry(i as nat),
{
    let mut table: Vec<u32> = Vec::new();
    let mut n: usize = 0;
    while n < 256
        invariant
            n <= 256,
            table@.len() == n,
            forall|i: int| 0 <= i < n ==> table@[i] == crc_table_entry(i as nat),
        decreases 256 - n,
    {
        let mut c = n as u32;
        let mut k: usize = 0;
        while k < 8
            invariant
                k <= 8,
                c == crc_cell_rounds(n as u32, k as nat),
            decreases 8 - k,
        {
            if (c & 1) == 1 {
                c = 0xedb88320 ^ ((c >> 1) & 0x7FFFFFFF);
            } else {
                c = (c >> 1) & 0x7FFFFFFF;
            }
            k = k + 1;
        }
        table.push(c);
        n = n + 1;
    }
    table
}

/// Update a running CRC with every byte of `buf`. The accumulator starts at
/// all ones, and the transmitted value is the complement of the final state.
fn update_crc(crc: u32, buf: &[u8]) -> (r: u32)
    ensures
        r == update_crc_spec(crc, buf@),
{
    let table = make_crc_table();
    let mut c = crc;
    let mut i: usize = 0;
    while i < buf.len()
        invariant
            i <= buf@.len(),
            table@.len() == 256,
            forall|j: int| 0 <= j < 256 ==> table@[j] == crc_table_entry(j as nat),
            c == update_crc_spec(crc, buf@.take(i as int)),
        decreases buf@.len() - i,
    {
        let b = buf[i];
        let idx = (c ^ (b as u32)) & 0xff;
        assert(idx < 256) by (bit_vector)
            requires
                idx == (c ^ (b as u32)) & 0xff,
        ;
        c = table[idx as usize] ^ ((c >> 8) & 0xFFFFFF);
        i = i + 1;
        proof {
            assert(buf@.take(i as int).drop_last() =~= buf@.take(i - 1));
            assert(buf@.take(i as int).last() == b);
        }
    }
    proof {
        assert(buf@.take(buf@.len() as int) =~= buf@);
    }
    c
}

/// The CRC-32 of a chunk's type code and payload.
pub fn crc(head: ChunkId, buf: &[u8]) -> (r: u32)
    ensures
        r == crc_spec(head.0@, buf@),
{
    let c = update_crc(0xffffffff, head.0.as_slice());
    update_crc(c, buf) ^ 0xffffffff
}

} // verus!
