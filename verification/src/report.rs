//! Report records and the chain reconstructor: signature-rooted chains,
//! bare chains, and unused bytes, in that order, derived from a scan
//! outcome.

use vstd::prelude::*;
use crate::chunk::{
    Chunk, ChunkId, ChunkV, chunk_spec_valid, chunk_v_spec_valid, first_nul, id_chrm, id_gama,
    id_iccp, id_idat, id_iend, id_ihdr, id_itxt, id_phys, id_plte, id_sbit, id_srgb, id_time,
    id_trns, type_rules_ok,
};
use crate::chunk::ihdr::{IHDR, ihdr_of};
use crate::chunk::chrm::{cHRM, chrm_of};
use crate::chunk::gama::{gAMA, gama_of};
use crate::chunk::iccp::{iCCP, IccpV};
use crate::chunk::itxt::{iTXt, ItxtV, itxt_cflg, itxt_cmthd, itxt_keyword, itxt_lang, itxt_text, itxt_trans};
use crate::chunk::phys::{pHYs, phys_of};
use crate::chunk::srgb::{sRGB, srgb_of};
use crate::chunk::time::{tIME, time_of};

verus! {

/// Why a chain stopped.
#[derive(Clone, Copy, PartialEq, Eq, Structural, Debug)]
pub enum EndReason {
    /// An IEND chunk was reached.
    Iend,
    /// The chain's next offset is exactly the end of the buffer.
    CleanEof,
    /// No candidate stands at the chain's next offset.
    BrokenLink,
}

/// The decoded, per-type reading of a spec-valid chunk's payload.
#[derive(PartialEq, Eq, Debug)]
pub enum ChunkSummary {
    Header(IHDR),
    Palette { entries: usize },
    ImageData { len: usize },
    Transparency { len: usize },
    Chromaticity(cHRM),
    Gamma(gAMA),
    Profile(iCCP),
    SignificantBits { len: usize },
    StandardRgb(sRGB),
    Time(tIME),
    Physical(pHYs),
    Text(iTXt),
    End,
    Unknown { len: usize },
}

/// The mathematical content of a summary.
#[verifier::ext_equal]
pub enum SummaryV {
    Header(IHDR),
    Palette { entries: int },
    ImageData { len: int },
    Transparency { len: int },
    Chromaticity(cHRM),
    Gamma(gAMA),
    Profile(IccpV),
    SignificantBits { len: int },
    StandardRgb(sRGB),
    Time(tIME),
    Physical(pHYs),
    Text(ItxtV),
    End,
    Unknown { len: int },
}

impl View for ChunkSummary {
    type V = SummaryV;

    open spec fn view(&self) -> SummaryV {
        match self {
            ChunkSummary::Header(h) => SummaryV::Header(*h),
            ChunkSummary::Palette { entries } => SummaryV::Palette { entries: *entries as int },
            ChunkSummary::ImageData { len } => SummaryV::ImageData { len: *len as int },
            ChunkSummary::Transparency { len } => SummaryV::Transparency { len: *len as int },
            ChunkSummary::Chromaticity(c) => SummaryV::Chromaticity(*c),
            ChunkSummary::Gamma(g) => SummaryV::Gamma(*g),
            ChunkSummary::Profile(p) => SummaryV::Profile(p@),
            ChunkSummary::SignificantBits { len } => SummaryV::SignificantBits {
                len: *len as int,
            },
            ChunkSummary::StandardRgb(s) => SummaryV::StandardRgb(*s),
            ChunkSummary::Time(t) => SummaryV::Time(*t),
            ChunkSummary::Physical(p) => SummaryV::Physical(*p),
            ChunkSummary::Text(t) => SummaryV::Text(t@),
            ChunkSummary::End => SummaryV::End,
            ChunkSummary::Unknown { len } => SummaryV::Unknown { len: *len as int },
        }
    }
}

/// The summary a spec-valid chunk with type code `id` and payload `d`
/// decodes to.
pub open spec fn summary_of(id: Seq<u8>, d: Seq<u8>) -> SummaryV {
    if id == id_ihdr() {
        SummaryV::Header(ihdr_of(d))
    } else if id == id_plte() {
        SummaryV::Palette { entries: d.len() as int / 3 }
    } else if id == id_idat() {
        SummaryV::ImageData { len: d.len() as int }
    } else if id == id_trns() {
        SummaryV::Transparency { len: d.len() as int }
    } else if id == id_chrm() {
        SummaryV::Chromaticity(chrm_of(d))
    } else if id == id_gama() {
        SummaryV::Gamma(gama_of(d))
    } else if id == id_iccp() {
        SummaryV::Profile(IccpV { name: d.take(first_nul(d)), data: d.skip(first_nul(d)) })
    } else if id == id_sbit() {
        SummaryV::SignificantBits { len: d.len() as int }
    } else if id == id_srgb() {
        SummaryV::StandardRgb(srgb_of(d))
    } else if id == id_time() {
        SummaryV::Time(time_of(d))
    } else if id == id_phys() {
        SummaryV::Physical(phys_of(d))
    } else if id == id_itxt() {
        SummaryV::Text(
            ItxtV {
                keyword: itxt_keyword(d),
                cflg: itxt_cflg(d),
                cmthd: itxt_cmthd(d),
                lang: itxt_lang(d),
                trans: itxt_trans(d),
                text: itxt_text(d),
            },
        )
    } else if id == id_iend() {
        SummaryV::End
    } else {
        SummaryV::Unknown { len: d.len() as int }
    }
}

/// The summary slot of a reported chunk: populated exactly when the chunk is
/// spec-valid.
pub open spec fn summary_opt(c: ChunkV) -> Option<SummaryV> {
    if chunk_v_spec_valid(c) {
        Some(summary_of(c.id, c.data))
    } else {
        None
    }
}

/// The view of an optional summary.
pub open spec fn opt_summary_view(r: Option<ChunkSummary>) -> Option<SummaryV> {
    match r {
        Some(s) => Some(s@),
        None => None,
    }
}

/// One record of the ordered report.
#[derive(PartialEq, Eq, Debug)]
pub enum Record {
    /// A signature at this offset roots a chain; the signature spans 8 bytes.
    SignatureStart { offset: usize },
    /// A chain with no preceding signature begins at this offset.
    BareStart { offset: usize },
    /// A chunk incorporated into the current chain. The summary is present
    /// exactly when the chunk is spec-valid; a malformed or CRC-mismatched
    /// chunk keeps its raw stored CRC visible instead.
    ChunkFound { offset: usize, chunk: Chunk, summary: Option<ChunkSummary> },
    /// The current chain stops, and why.
    ChainEnd { reason: EndReason },
    /// A byte that no successful candidate accounted for.
    UnusedByte { offset: usize, value: u8 },
}

/// The mathematical content of a report record.
#[verifier::ext_equal]
pub enum RecordV {
    SignatureStart { offset: int },
    BareStart { offset: int },
    ChunkFound { offset: int, chunk: ChunkV, summary: Option<SummaryV> },
    ChainEnd { reason: EndReason },
    UnusedByte { offset: int, value: u8 },
}

impl View for Record {
    type V = RecordV;

    open spec fn view(&self) -> RecordV {
        match self {
            Record::SignatureStart { offset } => RecordV::SignatureStart {
                offset: *offset as int,
            },
            Record::BareStart { offset } => RecordV::BareStart { offset: *offset as int },
            Record::ChunkFound { offset, chunk, summary } => RecordV::ChunkFound {
                offset: *offset as int,
                chunk: chunk@,
                summary: opt_summary_view(*summary),
            },
            Record::ChainEnd { reason } => RecordV::ChainEnd { reason: *reason },
            Record::UnusedByte { offset, value } => RecordV::UnusedByte {
                offset: *offset as int,
                value: *value,
            },
        }
    }
}

/// A sequence of records as their mathematical contents.
pub open spec fn to_record_views(s: Seq<Record>) -> Seq<RecordV> {
    s.map_values(|r: Record| r@)
}

/// The end record a chain emits when no candidate stands at its cursor:
/// a clean end-of-buffer when the cursor is exactly the buffer length,
/// a broken link otherwise.
pub open spec fn end_record(n: int, cursor: int) -> RecordV {
    RecordV::ChainEnd {
        reason: if cursor == n {
            EndReason::CleanEof
        } else {
            EndReason::BrokenLink
        },
    }
}

/// One chain walked from `cursor` over the candidate table: while an
/// unconsumed candidate stands at the cursor, it is removed and reported and
/// the cursor advances past it; an IEND chunk ends the chain at once, and a
/// missing candidate ends it with a clean-EOF or broken-link mark. Returns
/// the chain's records and the table with the consumed entries cleared.
pub open spec fn walk(table: Seq<Option<ChunkV>>, cursor: int) -> (Seq<RecordV>, Seq<
    Option<ChunkV>,
>)
    decreases table.len() - cursor,
{
    if cursor < 0 || cursor >= table.len() {
        (seq![end_record(table.len() as int, cursor)], table)
    } else {
        match table[cursor] {
            None => (seq![end_record(table.len() as int, cursor)], table),
            Some(c) => {
                let rec = RecordV::ChunkFound { offset: cursor, chunk: c, summary: summary_opt(c) };
                let t2 = table.update(cursor, None);
                if c.id == id_iend() {
                    (seq![rec, RecordV::ChainEnd { reason: EndReason::Iend }], t2)
                } else {
                    let next = cursor + 12 + c.data.len();
                    if next > table.len() {
                        (seq![rec, RecordV::ChainEnd { reason: EndReason::BrokenLink }], t2)
                    } else {
                        let (rest, t3) = walk(t2, next);
                        (seq![rec] + rest, t3)
                    }
                }
            },
        }
    }
}

/// Every populated slot of the table holds exactly the chunk that parses at
/// its offset.
pub open spec fn table_ok(buf: Seq<u8>, t: Seq<Option<ChunkV>>) -> bool {
    &&& t.len() == buf.len()
    &&& forall|j: int|
        0 <= j < t.len() && t[j] is Some ==> crate::scan::chunk_at(buf, j) && t[j] == Some(
            crate::scan::chunk_v_at(buf, j),
        )
}

/// Walks one chain from `start`, consuming candidates from the table and
/// appending the chain's records, exactly as the `walk` spec says.
fn walk_chain(buf: &[u8], chunks: &mut Vec<Option<Chunk>>, start: usize, report: &mut Vec<Record>)
    requires
        table_ok(buf@, crate::scan::to_chunk_views(old(chunks)@)),
        start <= buf@.len(),
    ensures
        table_ok(buf@, crate::scan::to_chunk_views(final(chunks)@)),
        final(chunks)@.len() == old(chunks)@.len(),
        to_record_views(final(report)@) == to_record_views(old(report)@) + walk(
            crate::scan::to_chunk_views(old(chunks)@),
            start as int,
        ).0,
        crate::scan::to_chunk_views(final(chunks)@) == walk(
            crate::scan::to_chunk_views(old(chunks)@),
            start as int,
        ).1,
{
    let n = buf.len();
    let ghost t_init = crate::scan::to_chunk_views(chunks@);
    let ghost r_init = to_record_views(report@);
    let mut cursor: usize = start;
    while cursor < n && chunks[cursor].is_some()
        invariant
            n == buf@.len(),
            cursor <= n,
            chunks@.len() == n,
            old(chunks)@.len() == n,
            crate::scan::to_chunk_views(old(chunks)@) == t_init,
            to_record_views(old(report)@) == r_init,
            table_ok(buf@, crate::scan::to_chunk_views(chunks@)),
            to_record_views(report@) + walk(crate::scan::to_chunk_views(chunks@), cursor as int).0
                == r_init + walk(t_init, start as int).0,
            walk(crate::scan::to_chunk_views(chunks@), cursor as int).1 == walk(
                t_init,
                start as int,
            ).1,
        decreases n - cursor,
    {
        let ghost t_cur = crate::scan::to_chunk_views(chunks@);
        let ghost r_cur = to_record_views(report@);
        proof {
            assert(t_cur[cursor as int] is Some);
        }
        let mut slot: Option<Chunk> = None;
        chunks.set_and_swap(cursor, &mut slot);
        proof {
            assert(crate::scan::to_chunk_views(chunks@) =~= t_cur.update(cursor as int, None));
        }
        let c = slot.unwrap();
        let summary = summarize(&c);
        let is_end = c.id == ChunkId::iend();
        let ghost cv = c@;
        proof {
            assert(crate::scan::chunk_at(buf@, cursor as int));
            assert(cv == crate::scan::chunk_v_at(buf@, cursor as int));
        }
        let flen = c.full_len();
        let ghost rec = RecordV::ChunkFound {
            offset: cursor as int,
            chunk: cv,
            summary: summary_opt(cv),
        };
        report.push(Record::ChunkFound { offset: cursor, chunk: c, summary });
        proof {
            assert(to_record_views(report@) =~= r_cur + seq![rec]);
        }
        if is_end {
            report.push(Record::ChainEnd { reason: EndReason::Iend });
            proof {
                assert(to_record_views(report@) =~= r_cur + seq![
                    rec,
                    RecordV::ChainEnd { reason: EndReason::Iend },
                ]);
                assert(walk(t_cur, cursor as int).0 == seq![
                    rec,
                    RecordV::ChainEnd { reason: EndReason::Iend },
                ]);
                assert(to_record_views(report@) =~= r_init + walk(t_init, start as int).0);
                assert(walk(t_cur, cursor as int).1 == t_cur.update(cursor as int, None));
                assert(crate::scan::to_chunk_views(chunks@) == walk(t_init, start as int).1);
            }
            return;
        }
        cursor = cursor + flen;
        proof {
            let t2 = t_cur.update((cursor - flen) as int, None);
            assert(walk(t_cur, (cursor - flen) as int).0 == seq![rec] + walk(t2, cursor as int).0);
            assert(walk(t_cur, (cursor - flen) as int).1 == walk(t2, cursor as int).1);
            assert(to_record_views(report@) + walk(t2, cursor as int).0 =~= r_init + walk(
                t_init,
                start as int,
            ).0);
        }
    }
    let ghost t_cur = crate::scan::to_chunk_views(chunks@);
    proof {
        if cursor < n {
            assert(t_cur[cursor as int] is None);
        }
        assert(walk(t_cur, cursor as int).0 == seq![end_record(n as int, cursor as int)]);
        assert(walk(t_cur, cursor as int).1 == t_cur);
    }
    let reason = if cursor == n {
        EndReason::CleanEof
    } else {
        EndReason::BrokenLink
    };
    report.push(Record::ChainEnd { reason });
    proof {
        assert(to_record_views(report@) =~= r_init + walk(t_init, start as int).0);
    }
}

/// The signature-rooted pass: for each signature offset in order, one chain
/// walked from just past the signature.
pub open spec fn sig_pass(table: Seq<Option<ChunkV>>, magics: Seq<int>) -> (Seq<RecordV>, Seq<
    Option<ChunkV>,
>)
    decreases magics.len(),
{
    if magics.len() == 0 {
        (Seq::empty(), table)
    } else {
        let m = magics[0];
        let w = walk(table, m + 8);
        let rest = sig_pass(w.1, magics.skip(1));
        (seq![RecordV::SignatureStart { offset: m }] + w.0 + rest.0, rest.1)
    }
}

/// The orphan pass: every candidate the signature chains left behind roots
/// a bare chain, in ascending offset order.
pub open spec fn orphan_pass(table: Seq<Option<ChunkV>>, o: int, n: int) -> (Seq<RecordV>, Seq<
    Option<ChunkV>,
>)
    decreases n - o,
{
    if o < 0 || o >= n {
        (Seq::empty(), table)
    } else if 0 <= o < table.len() && table[o] is Some {
        let w = walk(table, o);
        let rest = orphan_pass(w.1, o + 1, n);
        (seq![RecordV::BareStart { offset: o }] + w.0 + rest.0, rest.1)
    } else {
        orphan_pass(table, o + 1, n)
    }
}

/// One unused-byte record per reported offset, with the literal byte.
pub open spec fn unused_records(buf: Seq<u8>, offsets: Seq<int>) -> Seq<RecordV> {
    offsets.map_values(|o: int| RecordV::UnusedByte { offset: o, value: buf[o] })
}

/// The full report a buffer determines: signature-rooted chains in signature
/// order, then bare chains in ascending offset order, then unused bytes in
/// ascending offset order.
pub open spec fn report_spec(buf: Seq<u8>) -> Seq<RecordV> {
    let sc = crate::scan::scan_spec(buf);
    let sig = sig_pass(sc.chunks, sc.magics);
    let orph = orphan_pass(sig.1, 0, buf.len() as int);
    sig.0 + orph.0 + unused_records(buf, sc.unused)
}

/// Every recorded signature offset really carries the signature.
pub proof fn lemma_sig_offsets_elems(buf: Seq<u8>, k: int)
    ensures
        forall|i: int|
            0 <= i < crate::scan::sig_offsets(buf, k).len() ==> crate::scan::sig_at(
                buf,
                #[trigger] crate::scan::sig_offsets(buf, k)[i],
            ),
    decreases k,
{
    if k <= 0 {
    } else {
        lemma_sig_offsets_elems(buf, k - 1);
        let prev = crate::scan::sig_offsets(buf, k - 1);
        let cur = crate::scan::sig_offsets(buf, k);
        assert forall|i: int| 0 <= i < cur.len() implies crate::scan::sig_at(
            buf,
            #[trigger] cur[i],
        ) by {
            if i < prev.len() {
                assert(cur[i] == prev[i]);
            } else {
                assert(cur[i] == k - 1);
            }
        }
    }
}

/// Every recorded unused-byte offset lies below the scanned bound.
pub proof fn lemma_unused_offsets_elems(buf: Seq<u8>, k: int)
    ensures
        forall|i: int|
            0 <= i < crate::scan::unused_offsets(buf, k).len() ==> 0
                <= #[trigger] crate::scan::unused_offsets(buf, k)[i] < k,
    decreases k,
{
    if k <= 0 {
    } else {
        lemma_unused_offsets_elems(buf, k - 1);
        let prev = crate::scan::unused_offsets(buf, k - 1);
        let cur = crate::scan::unused_offsets(buf, k);
        assert forall|i: int| 0 <= i < cur.len() implies 0 <= #[trigger] cur[i] < k by {
            if i < prev.len() {
                assert(cur[i] == prev[i]);
            } else {
                assert(cur[i] == k - 1);
            }
        }
    }
}

/// 1 when `r` reports a chunk at offset `j`, 0 otherwise.
pub open spec fn rec_counts_chunk(r: RecordV, j: int) -> nat {
    match r {
        RecordV::ChunkFound { offset, .. } => if offset == j {
            1
        } else {
            0
        },
        _ => 0,
    }
}

/// How many records of `recs` report a chunk at offset `j`.
pub open spec fn chunk_rec_count(recs: Seq<RecordV>, j: int) -> nat
    decreases recs.len(),
{
    if recs.len() == 0 {
        0
    } else {
        rec_counts_chunk(recs[0], j) + chunk_rec_count(recs.skip(1), j)
    }
}

/// Chunk-record counts add up over concatenation.
pub proof fn lemma_count_concat(a: Seq<RecordV>, b: Seq<RecordV>, j: int)
    ensures
        chunk_rec_count(a + b, j) == chunk_rec_count(a, j) + chunk_rec_count(b, j),
    decreases a.len(),
{
    if a.len() == 0 {
        assert(a + b =~= b);
    } else {
        assert((a + b).skip(1) =~= a.skip(1) + b);
        lemma_count_concat(a.skip(1), b, j);
    }
}

/// A one-record sequence counts its own record and nothing else.
pub proof fn lemma_count_single(r: RecordV, j: int)
    ensures
        chunk_rec_count(seq![r], j) == rec_counts_chunk(r, j),
{
    assert(seq![r].skip(1) =~= Seq::<RecordV>::empty());
    assert(chunk_rec_count(Seq::<RecordV>::empty(), j) == 0);
}

/// One chain reports each chunk at most once: a chunk record at offset `j`
/// appears in the chain exactly when the table held a candidate there that
/// the walk consumed, the walk never invents or alters entries, and no
/// offset is reported twice.
pub proof fn lemma_walk_reports(t: Seq<Option<ChunkV>>, c: int)
    ensures
        walk(t, c).1.len() == t.len(),
        forall|j: int|
            #![trigger chunk_rec_count(walk(t, c).0, j)]
            {
                let cnt = chunk_rec_count(walk(t, c).0, j);
                &&& cnt <= 1
                &&& (0 <= j < t.len() ==> (walk(t, c).1[j] is Some ==> walk(t, c).1[j] == t[j]))
                &&& (0 <= j < t.len() ==> ((cnt == 1) <==> (t[j] is Some && walk(t, c).1[j]
                    is None)))
                &&& (!(0 <= j < t.len()) ==> cnt == 0)
            },
    decreases t.len() - c,
{
    let w = walk(t, c);
    if c < 0 || c >= t.len() || t[c] is None {
        assert forall|j: int| chunk_rec_count(w.0, j) == 0 by {
            lemma_count_single(end_record(t.len() as int, c), j);
        }
    } else {
        let cv = t[c]->Some_0;
        let rec = RecordV::ChunkFound { offset: c, chunk: cv, summary: summary_opt(cv) };
        let t2 = t.update(c, None);
        if cv.id == id_iend() || c + 12 + cv.data.len() > t.len() {
            let end = if cv.id == id_iend() {
                RecordV::ChainEnd { reason: EndReason::Iend }
            } else {
                RecordV::ChainEnd { reason: EndReason::BrokenLink }
            };
            assert(w.0 == seq![rec, end]);
            assert forall|j: int|
                chunk_rec_count(w.0, j) == rec_counts_chunk(rec, j) by {
                assert(w.0.skip(1) =~= seq![end]);
                lemma_count_single(end, j);
            }
        } else {
            let next = c + 12 + cv.data.len();
            lemma_walk_reports(t2, next);
            let rest = walk(t2, next);
            assert(w.0 == seq![rec] + rest.0);
            assert(w.1 == rest.1);
            assert forall|j: int|
                chunk_rec_count(w.0, j) == rec_counts_chunk(rec, j) + chunk_rec_count(
                    rest.0,
                    j,
                ) by {
                lemma_count_concat(seq![rec], rest.0, j);
                lemma_count_single(rec, j);
            }
            assert(t2[c] is None);
            assert(chunk_rec_count(rest.0, c) == 0);
        }
    }
}

/// The signature pass reports each chunk at most once, consumes exactly the
/// chunks it reports, and never alters surviving entries.
pub proof fn lemma_sig_pass_reports(t: Seq<Option<ChunkV>>, magics: Seq<int>)
    ensures
        sig_pass(t, magics).1.len() == t.len(),
        forall|j: int|
            #![trigger chunk_rec_count(sig_pass(t, magics).0, j)]
            {
                let cnt = chunk_rec_count(sig_pass(t, magics).0, j);
                &&& cnt <= 1
                &&& (0 <= j < t.len() ==> (sig_pass(t, magics).1[j] is Some ==> sig_pass(
                    t,
                    magics,
                ).1[j] == t[j]))
                &&& (0 <= j < t.len() ==> ((cnt == 1) <==> (t[j] is Some && sig_pass(t, magics).1[j]
                    is None)))
                &&& (!(0 <= j < t.len()) ==> cnt == 0)
            },
    decreases magics.len(),
{
    let p = sig_pass(t, magics);
    if magics.len() == 0 {
        assert forall|j: int| chunk_rec_count(p.0, j) == 0 by {
            assert(p.0 =~= Seq::<RecordV>::empty());
        }
    } else {
        let m = magics[0];
        let sig = RecordV::SignatureStart { offset: m };
        let w = walk(t, m + 8);
        let rest = sig_pass(w.1, magics.skip(1));
        lemma_walk_reports(t, m + 8);
        lemma_sig_pass_reports(w.1, magics.skip(1));
        assert(p.0 == seq![sig] + w.0 + rest.0);
        assert(p.1 == rest.1);
        assert forall|j: int|
            chunk_rec_count(p.0, j) == chunk_rec_count(w.0, j) + chunk_rec_count(rest.0, j) by {
            lemma_count_concat(seq![sig] + w.0, rest.0, j);
            lemma_count_concat(seq![sig], w.0, j);
            lemma_count_single(sig, j);
        }
    }
}

/// The orphan pass reports each chunk at most once, consumes exactly the
/// chunks it reports, and leaves no candidate below `n` standing.
pub proof fn lemma_orphan_pass_reports(t: Seq<Option<ChunkV>>, o: int, n: int)
    ensures
        orphan_pass(t, o, n).1.len() == t.len(),
        forall|j: int|
            #![trigger chunk_rec_count(orphan_pass(t, o, n).0, j)]
            {
                let cnt = chunk_rec_count(orphan_pass(t, o, n).0, j);
                &&& cnt <= 1
                &&& (0 <= j < t.len() ==> (orphan_pass(t, o, n).1[j] is Some ==> orphan_pass(
                    t,
                    o,
                    n,
                ).1[j] == t[j]))
                &&& (0 <= j < t.len() ==> ((cnt == 1) <==> (t[j] is Some && orphan_pass(t, o, n).1[j]
                    is None)))
                &&& (!(0 <= j < t.len()) ==> cnt == 0)
            },
        forall|j: int|
            0 <= o <= j < n && j < t.len() ==> #[trigger] orphan_pass(t, o, n).1[j] is None,
    decreases n - o,
{
    let p = orphan_pass(t, o, n);
    if o < 0 || o >= n {
        assert forall|j: int| chunk_rec_count(p.0, j) == 0 by {
            assert(p.0 =~= Seq::<RecordV>::empty());
        }
    } else if 0 <= o < t.len() && t[o] is Some {
        let bare = RecordV::BareStart { offset: o };
        let w = walk(t, o);
        let rest = orphan_pass(w.1, o + 1, n);
        lemma_walk_reports(t, o);
        lemma_orphan_pass_reports(w.1, o + 1, n);
        assert(p.0 == seq![bare] + w.0 + rest.0);
        assert(p.1 == rest.1);
        assert forall|j: int|
            chunk_rec_count(p.0, j) == chunk_rec_count(w.0, j) + chunk_rec_count(rest.0, j) by {
            lemma_count_concat(seq![bare] + w.0, rest.0, j);
            lemma_count_concat(seq![bare], w.0, j);
            lemma_count_single(bare, j);
        }
        assert(chunk_rec_count(w.0, o) == 1);
        assert(w.1[o] is None);
        assert forall|j: int| 0 <= o <= j < n && j < t.len() implies #[trigger] p.1[j]
            is None by {
            assert(chunk_rec_count(orphan_pass(w.1, o + 1, n).0, j) <= 1);
            if j == o {
                if rest.1[j] is Some {
                    assert(rest.1[j] == w.1[j]);
                }
            } else {
                assert(orphan_pass(w.1, o + 1, n).1[j] is None);
            }
        }
    } else {
        lemma_orphan_pass_reports(t, o + 1, n);
        assert forall|j: int| 0 <= o <= j < n && j < t.len() implies #[trigger] p.1[j]
            is None by {
            assert(chunk_rec_count(orphan_pass(t, o + 1, n).0, j) <= 1);
            if j == o {
                if p.1[j] is Some {
                    assert(p.1[j] == t[j]);
                }
            } else {
                assert(orphan_pass(t, o + 1, n).1[j] is None);
            }
        }
    }
}

/// Unused-byte records never report a chunk.
pub proof fn lemma_unused_records_count(buf: Seq<u8>, offsets: Seq<int>, j: int)
    ensures
        chunk_rec_count(unused_records(buf, offsets), j) == 0,
    decreases offsets.len(),
{
    let u = unused_records(buf, offsets);
    if offsets.len() == 0 {
        assert(u =~= Seq::<RecordV>::empty());
    } else {
        assert(u.skip(1) =~= unused_records(buf, offsets.skip(1)));
        lemma_unused_records_count(buf, offsets.skip(1), j);
    }
}

/// No chunk is ever reported twice, and none is dropped: the report of a
/// buffer holds exactly one chunk record at every offset where the scan
/// found a chunk candidate, and none at any other offset.
pub proof fn lemma_each_candidate_reported_once(buf: Seq<u8>)
    ensures
        forall|j: int|
            0 <= j < buf.len() ==> #[trigger] chunk_rec_count(report_spec(buf), j) == (
            if crate::scan::cand_at(buf, j) is Some {
                1nat
            } else {
                0nat
            }),
        forall|j: int|
            !(0 <= j < buf.len()) ==> #[trigger] chunk_rec_count(report_spec(buf), j) == 0,
{
    let sc = crate::scan::scan_spec(buf);
    let t0 = sc.chunks;
    let sig = sig_pass(t0, sc.magics);
    let orph = orphan_pass(sig.1, 0, buf.len() as int);
    let unused = unused_records(buf, sc.unused);
    lemma_sig_pass_reports(t0, sc.magics);
    lemma_orphan_pass_reports(sig.1, 0, buf.len() as int);
    assert forall|j: int|
        chunk_rec_count(report_spec(buf), j) == chunk_rec_count(sig.0, j) + chunk_rec_count(
            orph.0,
            j,
        ) by {
        lemma_count_concat(sig.0 + orph.0, unused, j);
        lemma_count_concat(sig.0, orph.0, j);
        lemma_unused_records_count(buf, sc.unused, j);
    }
    assert forall|j: int| 0 <= j < buf.len() implies chunk_rec_count(report_spec(buf), j) == (
    if crate::scan::cand_at(buf, j) is Some {
        1nat
    } else {
        0nat
    }) by {
        assert(t0[j] == crate::scan::cand_at(buf, j));
        assert(orph.1[j] is None);
        if t0[j] is Some {
            if sig.1[j] is None {
                assert(chunk_rec_count(sig.0, j) == 1);
                assert(chunk_rec_count(orph.0, j) == 0);
            } else {
                assert(sig.1[j] == t0[j]);
                assert(chunk_rec_count(sig.0, j) == 0);
                assert(chunk_rec_count(orph.0, j) == 1);
            }
        } else {
            assert(chunk_rec_count(sig.0, j) == 0);
            if sig.1[j] is Some {
                assert(sig.1[j] == t0[j]);
                assert(false);
            }
            assert(chunk_rec_count(orph.0, j) == 0);
        }
    }
}

/// 1 when record `r` claims byte offset `o`: a signature record claims its
/// 8-byte span, a chunk record the full span of its record, an unused-byte
/// record its single offset, and chain markers claim nothing.
pub open spec fn rec_covers(r: RecordV, o: int) -> nat {
    match r {
        RecordV::SignatureStart { offset } => if offset <= o < offset + 8 {
            1
        } else {
            0
        },
        RecordV::ChunkFound { offset, chunk, .. } => if offset <= o < offset + 12
            + chunk.data.len() {
            1
        } else {
            0
        },
        RecordV::UnusedByte { offset, .. } => if offset == o {
            1
        } else {
            0
        },
        _ => 0,
    }
}

/// How many records of `recs` claim byte offset `o`.
pub open spec fn cover_count(recs: Seq<RecordV>, o: int) -> nat
    decreases recs.len(),
{
    if recs.len() == 0 {
        0
    } else {
        rec_covers(recs[0], o) + cover_count(recs.skip(1), o)
    }
}

proof fn lemma_cover_concat(a: Seq<RecordV>, b: Seq<RecordV>, o: int)
    ensures
        cover_count(a + b, o) == cover_count(a, o) + cover_count(b, o),
    decreases a.len(),
{
    if a.len() == 0 {
        assert(a + b =~= b);
    } else {
        assert((a + b).skip(1) =~= a.skip(1) + b);
        lemma_cover_concat(a.skip(1), b, o);
    }
}

proof fn lemma_cover_single(r: RecordV, o: int)
    ensures
        cover_count(seq![r], o) == rec_covers(r, o),
{
    assert(seq![r].skip(1) =~= Seq::<RecordV>::empty());
    assert(cover_count(Seq::<RecordV>::empty(), o) == 0);
}

/// The span a table slot claims: the chunk's full record length, or nothing.
spec fn slot_span(slot: Option<ChunkV>) -> int {
    match slot {
        Some(c) => 12 + c.data.len() as int,
        None => 0,
    }
}

/// 1 when the entry at `j` was consumed between `t` and `t2` and its span
/// claims offset `o`.
spec fn diff_at(t: Seq<Option<ChunkV>>, t2: Seq<Option<ChunkV>>, o: int, j: int) -> nat {
    if 0 <= j < t.len() && t[j] is Some && t2[j] is None && j <= o < j + slot_span(t[j]) {
        1
    } else {
        0
    }
}

/// How many entries below `k`, consumed between `t` and `t2`, claim `o`.
spec fn diff_cover(t: Seq<Option<ChunkV>>, t2: Seq<Option<ChunkV>>, o: int, k: int) -> nat
    decreases k,
{
    if k <= 0 {
        0
    } else {
        diff_cover(t, t2, o, k - 1) + diff_at(t, t2, o, k - 1)
    }
}

/// `t2` only clears entries of `t`, never adds or changes one.
spec fn only_clears(t: Seq<Option<ChunkV>>, t2: Seq<Option<ChunkV>>) -> bool {
    t2.len() == t.len() && forall|j: int| 0 <= j < t.len() && t2[j] is Some ==> t2[j] == t[j]
}

proof fn lemma_diff_refl(t: Seq<Option<ChunkV>>, o: int, k: int)
    ensures
        diff_cover(t, t, o, k) == 0,
    decreases k,
{
    if k > 0 {
        lemma_diff_refl(t, o, k - 1);
    }
}

proof fn lemma_diff_update(t: Seq<Option<ChunkV>>, c: int, o: int, k: int)
    requires
        0 <= c < t.len(),
        t[c] is Some,
    ensures
        diff_cover(t, t.update(c, None), o, k) == if c < k && c <= o < c + slot_span(t[c]) {
            1nat
        } else {
            0nat
        },
    decreases k,
{
    if k > 0 {
        lemma_diff_update(t, c, o, k - 1);
    }
}

/// Consumption sums over two stages: entries cleared from `t0` to `t2` are
/// those cleared in the first stage plus those cleared in the second.
proof fn lemma_diff_chain(
    t0: Seq<Option<ChunkV>>,
    t1: Seq<Option<ChunkV>>,
    t2: Seq<Option<ChunkV>>,
    o: int,
    k: int,
)
    requires
        only_clears(t0, t1),
        only_clears(t1, t2),
    ensures
        diff_cover(t0, t2, o, k) == diff_cover(t0, t1, o, k) + diff_cover(t1, t2, o, k),
    decreases k,
{
    if k > 0 {
        lemma_diff_chain(t0, t1, t2, o, k - 1);
        if 0 <= k - 1 < t0.len() {
            assert(t1[k - 1] is Some ==> t1[k - 1] == t0[k - 1]);
            assert(t2[k - 1] is Some ==> t2[k - 1] == t1[k - 1]);
        }
    }
}

/// A chain's records claim exactly the spans of the candidates the walk
/// consumed from the table.
proof fn lemma_walk_cover(t: Seq<Option<ChunkV>>, c: int, o: int)
    ensures
        only_clears(t, walk(t, c).1),
        cover_count(walk(t, c).0, o) == diff_cover(t, walk(t, c).1, o, t.len() as int),
    decreases t.len() - c,
{
    let w = walk(t, c);
    lemma_walk_reports(t, c);
    if c < 0 || c >= t.len() || t[c] is None {
        lemma_cover_single(end_record(t.len() as int, c), o);
        lemma_diff_refl(t, o, t.len() as int);
    } else {
        let cv = t[c]->Some_0;
        let rec = RecordV::ChunkFound { offset: c, chunk: cv, summary: summary_opt(cv) };
        let t2 = t.update(c, None);
        lemma_diff_update(t, c, o, t.len() as int);
        if cv.id == id_iend() || c + 12 + cv.data.len() > t.len() {
            let end = if cv.id == id_iend() {
                RecordV::ChainEnd { reason: EndReason::Iend }
            } else {
                RecordV::ChainEnd { reason: EndReason::BrokenLink }
            };
            assert(w.0 == seq![rec, end]);
            assert(w.0.skip(1) =~= seq![end]);
            lemma_cover_single(end, o);
        } else {
            let next = c + 12 + cv.data.len();
            lemma_walk_cover(t2, next, o);
            let rest = walk(t2, next);
            assert(w.0 == seq![rec] + rest.0);
            lemma_cover_concat(seq![rec], rest.0, o);
            lemma_cover_single(rec, o);
            lemma_diff_chain(t, t2, rest.1, o, t.len() as int);
        }
    }
}

/// How many offsets of `magics` have a signature span claiming `o`.
spec fn sig_span_sum(magics: Seq<int>, o: int) -> nat
    decreases magics.len(),
{
    if magics.len() == 0 {
        0
    } else {
        (if magics[0] <= o < magics[0] + 8 {
            1nat
        } else {
            0nat
        }) + sig_span_sum(magics.skip(1), o)
    }
}

/// The signature pass claims each signature span once plus the spans of the
/// chunks its chains consumed.
proof fn lemma_sig_pass_cover(t: Seq<Option<ChunkV>>, magics: Seq<int>, o: int)
    ensures
        only_clears(t, sig_pass(t, magics).1),
        cover_count(sig_pass(t, magics).0, o) == sig_span_sum(magics, o) + diff_cover(
            t,
            sig_pass(t, magics).1,
            o,
            t.len() as int,
        ),
    decreases magics.len(),
{
    let p = sig_pass(t, magics);
    if magics.len() == 0 {
        assert(p.0 =~= Seq::<RecordV>::empty());
        lemma_diff_refl(t, o, t.len() as int);
    } else {
        let m = magics[0];
        let sig = RecordV::SignatureStart { offset: m };
        let w = walk(t, m + 8);
        lemma_walk_cover(t, m + 8, o);
        lemma_sig_pass_cover(w.1, magics.skip(1), o);
        let rest = sig_pass(w.1, magics.skip(1));
        assert(p.0 == seq![sig] + w.0 + rest.0);
        lemma_cover_concat(seq![sig] + w.0, rest.0, o);
        lemma_cover_concat(seq![sig], w.0, o);
        lemma_cover_single(sig, o);
        lemma_diff_chain(t, w.1, rest.1, o, t.len() as int);
    }
}

/// The orphan pass claims exactly the spans of the chunks it consumed.
proof fn lemma_orphan_pass_cover(t: Seq<Option<ChunkV>>, s: int, n: int, o: int)
    ensures
        only_clears(t, orphan_pass(t, s, n).1),
        cover_count(orphan_pass(t, s, n).0, o) == diff_cover(
            t,
            orphan_pass(t, s, n).1,
            o,
            t.len() as int,
        ),
    decreases n - s,
{
    let p = orphan_pass(t, s, n);
    if s < 0 || s >= n {
        assert(p.0 =~= Seq::<RecordV>::empty());
        lemma_diff_refl(t, o, t.len() as int);
    } else if 0 <= s < t.len() && t[s] is Some {
        let bare = RecordV::BareStart { offset: s };
        let w = walk(t, s);
        lemma_walk_cover(t, s, o);
        lemma_orphan_pass_cover(w.1, s + 1, n, o);
        let rest = orphan_pass(w.1, s + 1, n);
        assert(p.0 == seq![bare] + w.0 + rest.0);
        lemma_cover_concat(seq![bare] + w.0, rest.0, o);
        lemma_cover_concat(seq![bare], w.0, o);
        lemma_cover_single(bare, o);
        lemma_diff_chain(t, w.1, rest.1, o, t.len() as int);
    } else {
        lemma_orphan_pass_cover(t, s + 1, n, o);
    }
}

/// How many elements of `offsets` equal `o`.
spec fn occurrence_count(offsets: Seq<int>, o: int) -> nat
    decreases offsets.len(),
{
    if offsets.len() == 0 {
        0
    } else {
        (if offsets[0] == o {
            1nat
        } else {
            0nat
        }) + occurrence_count(offsets.skip(1), o)
    }
}

proof fn lemma_occurrence_snoc(offsets: Seq<int>, x: int, o: int)
    ensures
        occurrence_count(offsets + seq![x], o) == occurrence_count(offsets, o) + (if x == o {
            1nat
        } else {
            0nat
        }),
    decreases offsets.len(),
{
    if offsets.len() == 0 {
        assert(offsets + seq![x] =~= seq![x]);
        assert(seq![x].skip(1) =~= Seq::<int>::empty());
        assert(occurrence_count(Seq::<int>::empty(), o) == 0);
    } else {
        assert((offsets + seq![x]).skip(1) =~= offsets.skip(1) + seq![x]);
        lemma_occurrence_snoc(offsets.skip(1), x, o);
    }
}

/// Unused-byte records claim each reported offset exactly once.
proof fn lemma_unused_cover(buf: Seq<u8>, offsets: Seq<int>, o: int)
    ensures
        cover_count(unused_records(buf, offsets), o) == occurrence_count(offsets, o),
    decreases offsets.len(),
{
    let u = unused_records(buf, offsets);
    if offsets.len() == 0 {
        assert(u =~= Seq::<RecordV>::empty());
    } else {
        assert(u.skip(1) =~= unused_records(buf, offsets.skip(1)));
        lemma_unused_cover(buf, offsets.skip(1), o);
    }
}

/// An offset occurs in the unused list below `k` exactly when it is an
/// unused byte below `k`.
proof fn lemma_unused_offsets_occurrence(buf: Seq<u8>, k: int, o: int)
    ensures
        occurrence_count(crate::scan::unused_offsets(buf, k), o) == (if 0 <= o < k
            && crate::scan::unused_at(buf, o) {
            1nat
        } else {
            0nat
        }),
    decreases k,
{
    if k <= 0 {
    } else {
        lemma_unused_offsets_occurrence(buf, k - 1, o);
        if crate::scan::unused_at(buf, k - 1) {
            lemma_occurrence_snoc(crate::scan::unused_offsets(buf, k - 1), k - 1, o);
        }
    }
}

/// How many successful candidates below `k` have spans claiming offset `o`.
pub open spec fn cand_cover_upto(buf: Seq<u8>, k: int, o: int) -> nat
    decreases k,
{
    if k <= 0 {
        0
    } else {
        cand_cover_upto(buf, k - 1, o) + (if crate::scan::cand_span(buf, k - 1) > 0 && k - 1 <= o
            < k - 1 + crate::scan::cand_span(buf, k - 1) {
            1nat
        } else {
            0nat
        })
    }
}

/// How many signature offsets below `k` have spans claiming `o`.
spec fn sig_cover_upto(buf: Seq<u8>, k: int, o: int) -> nat
    decreases k,
{
    if k <= 0 {
        0
    } else {
        sig_cover_upto(buf, k - 1, o) + (if crate::scan::sig_at(buf, k - 1) && k - 1 <= o < k - 1
            + 8 {
            1nat
        } else {
            0nat
        })
    }
}

proof fn lemma_sig_span_sum_offsets(buf: Seq<u8>, k: int, o: int)
    ensures
        sig_span_sum(crate::scan::sig_offsets(buf, k), o) == sig_cover_upto(buf, k, o),
    decreases k,
{
    if k <= 0 {
    } else {
        lemma_sig_span_sum_offsets(buf, k - 1, o);
        if crate::scan::sig_at(buf, k - 1) {
            lemma_sig_span_sum_snoc(crate::scan::sig_offsets(buf, k - 1), k - 1, o);
        }
    }
}

proof fn lemma_sig_span_sum_snoc(magics: Seq<int>, x: int, o: int)
    ensures
        sig_span_sum(magics + seq![x], o) == sig_span_sum(magics, o) + (if x <= o < x + 8 {
            1nat
        } else {
            0nat
        }),
    decreases magics.len(),
{
    if magics.len() == 0 {
        assert(magics + seq![x] =~= seq![x]);
        assert(seq![x].skip(1) =~= Seq::<int>::empty());
        assert(sig_span_sum(Seq::<int>::empty(), o) == 0);
    } else {
        assert((magics + seq![x]).skip(1) =~= magics.skip(1) + seq![x]);
        lemma_sig_span_sum_snoc(magics.skip(1), x, o);
    }
}

/// Once every slot below `n` is cleared, the consumed spans are exactly the
/// chunk-candidate spans.
proof fn lemma_diff_full(buf: Seq<u8>, t0: Seq<Option<ChunkV>>, tf: Seq<Option<ChunkV>>, o: int, k: int)
    requires
        t0.len() == buf.len(),
        tf.len() == buf.len(),
        forall|j: int| 0 <= j < buf.len() ==> t0[j] == crate::scan::cand_at(buf, j),
        forall|j: int| 0 <= j < buf.len() ==> tf[j] is None,
        k <= buf.len(),
    ensures
        diff_cover(t0, tf, o, k) + sig_cover_upto(buf, k, o) == cand_cover_upto(buf, k, o),
    decreases k,
{
    if k > 0 {
        lemma_diff_full(buf, t0, tf, o, k - 1);
        let j = k - 1;
        if crate::scan::chunk_at(buf, j) && !crate::scan::sig_at(buf, j) {
            assert(t0[j] == Some(crate::scan::chunk_v_at(buf, j)));
            assert(slot_span(t0[j]) == crate::scan::chunk_span(buf, j));
        }
    }
}

/// Candidates at or above `o + 1` claim nothing at `o`: spans only reach
/// forward.
proof fn lemma_cand_cover_tail(buf: Seq<u8>, k: int, o: int)
    requires
        k >= o + 1,
    ensures
        cand_cover_upto(buf, k, o) == cand_cover_upto(buf, o + 1, o),
    decreases k - o,
{
    if k > o + 1 {
        lemma_cand_cover_tail(buf, k - 1, o);
    }
}

/// The high-water mark has passed `o` exactly when some candidate span below
/// `k` claims `o`.
proof fn lemma_high_water_cover(buf: Seq<u8>, k: int, o: int)
    requires
        0 <= o,
        0 <= k <= o + 1,
    ensures
        (crate::scan::high_water(buf, k) <= o) <==> (cand_cover_upto(buf, k, o) == 0),
    decreases k,
{
    if k > 0 {
        lemma_high_water_cover(buf, k - 1, o);
    }
}

/// Coverage: every byte offset of the buffer is claimed by the report
/// exactly once — by a signature span, a chunk span or an unused-byte
/// record — except that offsets lying inside several overlapping candidate
/// spans are claimed once per span, the forward-only scan's documented
/// imprecision. Buffers without overlapping candidates are partitioned
/// exactly.
pub proof fn lemma_coverage_partition(buf: Seq<u8>)
    ensures
        forall|o: int|
            0 <= o < buf.len() ==> #[trigger] cover_count(report_spec(buf), o) == (
            if cand_cover_upto(buf, buf.len() as int, o) == 0 {
                1nat
            } else {
                cand_cover_upto(buf, buf.len() as int, o)
            }),
{
    let n = buf.len() as int;
    let sc = crate::scan::scan_spec(buf);
    let t0 = sc.chunks;
    let sig = sig_pass(t0, sc.magics);
    let orph = orphan_pass(sig.1, 0, n);
    let unused = unused_records(buf, sc.unused);
    lemma_orphan_pass_reports(sig.1, 0, n);
    assert forall|o: int| 0 <= o < buf.len() implies #[trigger] cover_count(report_spec(buf), o)
        == (if cand_cover_upto(buf, n, o) == 0 {
        1nat
    } else {
        cand_cover_upto(buf, n, o)
    }) by {
        lemma_cover_concat(sig.0 + orph.0, unused, o);
        lemma_cover_concat(sig.0, orph.0, o);
        lemma_sig_pass_cover(t0, sc.magics, o);
        lemma_orphan_pass_cover(sig.1, 0, n, o);
        lemma_diff_chain(t0, sig.1, orph.1, o, n);
        lemma_unused_cover(buf, sc.unused, o);
        lemma_unused_offsets_occurrence(buf, n, o);
        lemma_sig_span_sum_offsets(buf, n, o);
        assert forall|j: int| 0 <= j < buf.len() implies orph.1[j] is None by {
            assert(chunk_rec_count(orphan_pass(sig.1, 0, n).0, j) <= 1);
        }
        lemma_diff_full(buf, t0, orph.1, o, n);
        lemma_cand_cover_tail(buf, n, o);
        assert(cover_count(report_spec(buf), o) == cand_cover_upto(buf, n, o) + (
        if crate::scan::unused_at(buf, o) {
            1nat
        } else {
            0nat
        }));
        if crate::scan::cand_span(buf, o) > 0 {
            assert(cand_cover_upto(buf, o + 1, o) >= 1);
            assert(!crate::scan::unused_at(buf, o));
        } else {
            assert(cand_cover_upto(buf, o + 1, o) == cand_cover_upto(buf, o, o));
            lemma_high_water_cover(buf, o, o);
        }
    }
}

/// Partition: in a buffer whose candidate spans never overlap, every byte
/// offset is claimed by exactly one of a reported signature span, a reported
/// chunk span, or an unused-byte record.
pub proof fn lemma_unambiguous_partition(buf: Seq<u8>)
    requires
        forall|o: int| 0 <= o < buf.len() ==> #[trigger] cand_cover_upto(
            buf,
            buf.len() as int,
            o,
        ) <= 1,
    ensures
        forall|o: int| 0 <= o < buf.len() ==> #[trigger] cover_count(report_spec(buf), o) == 1,
{
    lemma_coverage_partition(buf);
}

/// Three ordered passes over a scan outcome: signature-rooted chains, bare
/// chains of the candidates left over, then the unused bytes. A candidate is
/// consumed when a chain incorporates it, so no chunk is ever reported
/// twice.
pub fn reconstruct(buf: &[u8], outcome: crate::scan::ScanOutcome) -> (r: Vec<Record>)
    requires
        outcome@ == crate::scan::scan_spec(buf@),
    ensures
        to_record_views(r@) == report_spec(buf@),
{
    let n = buf.len();
    let crate::scan::ScanOutcome { magics, mut chunks, unused } = outcome;
    let ghost t0 = crate::scan::to_chunk_views(chunks@);
    let ghost mags = crate::scan::to_ints(magics@);
    proof {
        assert(t0 == crate::scan::scan_spec(buf@).chunks);
        assert(mags == crate::scan::sig_offsets(buf@, n as int));
        assert(table_ok(buf@, t0));
        lemma_sig_offsets_elems(buf@, n as int);
        assert(mags.skip(0) =~= mags);
    }
    let mut report: Vec<Record> = Vec::new();
    let ghost sig_out = sig_pass(t0, mags);
    let mut mi: usize = 0;
    while mi < magics.len()
        invariant
            n == buf@.len(),
            chunks@.len() == n,
            mi <= magics@.len(),
            crate::scan::to_ints(magics@) == mags,
            forall|i: int| 0 <= i < mags.len() ==> crate::scan::sig_at(buf@, #[trigger] mags[i]),
            table_ok(buf@, crate::scan::to_chunk_views(chunks@)),
            sig_out == sig_pass(t0, mags),
            to_record_views(report@) + sig_pass(
                crate::scan::to_chunk_views(chunks@),
                mags.skip(mi as int),
            ).0 == sig_out.0,
            sig_pass(crate::scan::to_chunk_views(chunks@), mags.skip(mi as int)).1 == sig_out.1,
        decreases magics@.len() - mi,
    {
        let m = magics[mi];
        let ghost t_before = crate::scan::to_chunk_views(chunks@);
        let ghost r_before = to_record_views(report@);
        let ghost tail = mags.skip(mi as int);
        proof {
            assert(mags[mi as int] == m as int);
            assert(tail[0] == m as int);
            assert(crate::scan::sig_at(buf@, m as int));
        }
        report.push(Record::SignatureStart { offset: m });
        proof {
            assert(to_record_views(report@) =~= r_before + seq![
                RecordV::SignatureStart { offset: m as int },
            ]);
        }
        walk_chain(buf, &mut chunks, m + 8, &mut report);
        mi = mi + 1;
        proof {
            let w = walk(t_before, m + 8);
            assert(tail.skip(1) =~= mags.skip(mi as int));
            assert(sig_pass(t_before, tail).0 == seq![
                RecordV::SignatureStart { offset: m as int },
            ] + w.0 + sig_pass(w.1, mags.skip(mi as int)).0);
            assert(sig_pass(t_before, tail).1 == sig_pass(w.1, mags.skip(mi as int)).1);
            assert(to_record_views(report@) =~= r_before + seq![
                RecordV::SignatureStart { offset: m as int },
            ] + w.0);
            assert(to_record_views(report@) + sig_pass(
                crate::scan::to_chunk_views(chunks@),
                mags.skip(mi as int),
            ).0 =~= r_before + sig_pass(t_before, tail).0);
        }
    }
    proof {
        assert(mags.skip(magics@.len() as int) =~= Seq::<int>::empty());
        assert(to_record_views(report@) == sig_out.0);
        assert(crate::scan::to_chunk_views(chunks@) == sig_out.1);
    }
    let ghost t1 = crate::scan::to_chunk_views(chunks@);
    let ghost orph_out = orphan_pass(t1, 0, n as int);
    let mut o: usize = 0;
    while o < n
        invariant
            n == buf@.len(),
            chunks@.len() == n,
            o <= n,
            table_ok(buf@, crate::scan::to_chunk_views(chunks@)),
            orph_out == orphan_pass(t1, 0, n as int),
            sig_out == sig_pass(t0, mags),
            to_record_views(report@) + orphan_pass(
                crate::scan::to_chunk_views(chunks@),
                o as int,
                n as int,
            ).0 == sig_out.0 + orph_out.0,
            orphan_pass(crate::scan::to_chunk_views(chunks@), o as int, n as int).1 == orph_out.1,
        decreases n - o,
    {
        let ghost t_before = crate::scan::to_chunk_views(chunks@);
        let ghost r_before = to_record_views(report@);
        if chunks[o].is_some() {
            proof {
                assert(t_before[o as int] is Some);
            }
            report.push(Record::BareStart { offset: o });
            proof {
                assert(to_record_views(report@) =~= r_before + seq![
                    RecordV::BareStart { offset: o as int },
                ]);
            }
            walk_chain(buf, &mut chunks, o, &mut report);
            proof {
                let w = walk(t_before, o as int);
                assert(orphan_pass(t_before, o as int, n as int).0 == seq![
                    RecordV::BareStart { offset: o as int },
                ] + w.0 + orphan_pass(w.1, o + 1, n as int).0);
                assert(orphan_pass(t_before, o as int, n as int).1 == orphan_pass(
                    w.1,
                    o + 1,
                    n as int,
                ).1);
                assert(to_record_views(report@) =~= r_before + seq![
                    RecordV::BareStart { offset: o as int },
                ] + w.0);
                assert(to_record_views(report@) + orphan_pass(
                    crate::scan::to_chunk_views(chunks@),
                    o + 1,
                    n as int,
                ).0 =~= r_before + orphan_pass(t_before, o as int, n as int).0);
            }
        } else {
            proof {
                assert(t_before[o as int] is None);
                assert(orphan_pass(t_before, o as int, n as int) == orphan_pass(
                    t_before,
                    o + 1,
                    n as int,
                ));
            }
        }
        o = o + 1;
    }
    proof {
        assert(to_record_views(report@) == sig_out.0 + orph_out.0);
    }
    let ghost us = crate::scan::to_ints(unused@);
    proof {
        assert(us == crate::scan::unused_offsets(buf@, n as int));
        lemma_unused_offsets_elems(buf@, n as int);
        assert(us.take(0) =~= Seq::<int>::empty());
        assert(unused_records(buf@, us.take(0)) =~= Seq::<RecordV>::empty());
    }
    let mut ui: usize = 0;
    while ui < unused.len()
        invariant
            n == buf@.len(),
            ui <= unused@.len(),
            crate::scan::to_ints(unused@) == us,
            forall|i: int| 0 <= i < us.len() ==> 0 <= #[trigger] us[i] < n,
            to_record_views(report@) == sig_out.0 + orph_out.0 + unused_records(
                buf@,
                us.take(ui as int),
            ),
        decreases unused@.len() - ui,
    {
        let off = unused[ui];
        let ghost r_before = to_record_views(report@);
        proof {
            assert(us[ui as int] == off as int);
        }
        report.push(Record::UnusedByte { offset: off, value: buf[off] });
        ui = ui + 1;
        proof {
            assert(to_record_views(report@) =~= r_before + seq![
                RecordV::UnusedByte { offset: off as int, value: buf@[off as int] },
            ]);
            assert(unused_records(buf@, us.take(ui as int)) =~= unused_records(
                buf@,
                us.take(ui - 1),
            ) + seq![RecordV::UnusedByte { offset: off as int, value: buf@[off as int] }]);
        }
    }
    proof {
        assert(us.take(unused@.len() as int) =~= us);
        assert(to_record_views(report@) == report_spec(buf@));
    }
    report
}

/// Scans the buffer and reconstructs the full ordered report in one call.
pub fn scan_report(buf: &[u8]) -> (r: Vec<Record>)
    ensures
        to_record_views(r@) == report_spec(buf@),
{
    let outcome = crate::scan::scan(buf);
    reconstruct(buf, outcome)
}

/// Decodes a chunk into its per-type summary when it is spec-valid, and
/// into nothing when it is structurally malformed or breaks its type's
/// rules.
pub fn summarize(c: &Chunk) -> (r: Option<ChunkSummary>)
    ensures
        opt_summary_view(r) == summary_opt(c@),
{
    if !c.is_valid_spec() {
        return None;
    }
    if c.id == ChunkId::ihdr() {
        Some(ChunkSummary::Header(crate::chunk::ihdr::IHDR::new(c).unwrap()))
    } else if c.id == ChunkId::plte() {
        Some(ChunkSummary::Palette { entries: c.data.len() / 3 })
    } else if c.id == ChunkId::idat() {
        Some(ChunkSummary::ImageData { len: c.data.len() })
    } else if c.id == ChunkId::trns() {
        Some(ChunkSummary::Transparency { len: c.data.len() })
    } else if c.id == ChunkId::chrm() {
        Some(ChunkSummary::Chromaticity(crate::chunk::chrm::cHRM::new(c).unwrap()))
    } else if c.id == ChunkId::gama() {
        Some(ChunkSummary::Gamma(crate::chunk::gama::gAMA::new(c).unwrap()))
    } else if c.id == ChunkId::iccp() {
        Some(ChunkSummary::Profile(crate::chunk::iccp::iCCP::new(c).unwrap()))
    } else if c.id == ChunkId::sbit() {
        Some(ChunkSummary::SignificantBits { len: c.data.len() })
    } else if c.id == ChunkId::srgb() {
        Some(ChunkSummary::StandardRgb(crate::chunk::srgb::sRGB::new(c).unwrap()))
    } else if c.id == ChunkId::time() {
        Some(ChunkSummary::Time(crate::chunk::time::tIME::new(c).unwrap()))
    } else if c.id == ChunkId::phys() {
        Some(ChunkSummary::Physical(crate::chunk::phys::pHYs::new(c).unwrap()))
    } else if c.id == ChunkId::itxt() {
        Some(ChunkSummary::Text(crate::chunk::itxt::iTXt::new(c).unwrap()))
    } else if c.id == ChunkId::iend() {
        Some(ChunkSummary::End)
    } else {
        Some(ChunkSummary::Unknown { len: c.data.len() })
    }
}

} // verus!
