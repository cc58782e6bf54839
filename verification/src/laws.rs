//! The laws tying the two sides together: an archive laid out by the
//! writer parses back to the very entry table it was written with, and
//! each entry's framed bytes are the payload that went in.

use vstd::prelude::*;

use crate::fields::lemma_peel;
use crate::fields::u32_le;
use crate::headers::{
    cdh_bytes, eocd_bytes, lemma_parse_cdh_of_bytes, lemma_parse_eocd_of_bytes,
    lemma_parse_lfh_of_bytes, lfh_bytes, spec_parse_cdh, spec_parse_eocd, spec_parse_lfh,
};
use crate::read::{
    entry_of_cdh, spec_find_delim_from, spec_find_eocd, spec_find_eocd_from, spec_frame_entry,
    spec_parse_archive, spec_parse_entries, EntryModel,
};
use crate::write::{
    body_bytes, cd_bytes, cd_chunk, chunk_offset, closing_bytes, closing_eocd, descriptor_bytes,
    entry_chunk, lfh_of_cdh, rec_wf, CdRec,
};
use crate::ZipError;

verus! {

/// The entries a run of kept directory records describes, in order.
pub open spec fn models_of(rs: Seq<CdRec>) -> Seq<EntryModel> {
    rs.map_values(|r: CdRec| entry_of_cdh(r.header, r.name))
}

/// A payload that nowhere contains the data-descriptor signature, so the
/// delimiter scan of a streamed entry cannot stop inside it.
pub open spec fn delim_free(s: Seq<u8>) -> bool {
    forall|q: int|
        0 <= q && q + 4 <= s.len() ==> #[trigger] s.subrange(q, q + 4) != u32_le(
            crate::DATA_DESCRIPTOR_SIGNATURE,
        )
}

/// A subrange that stays within the left part of a concatenation reads
/// the left part alone.
proof fn lemma_subrange_of_prefix(x: Seq<u8>, y: Seq<u8>, a: int, b: int)
    requires
        0 <= a <= b <= x.len(),
    ensures
        (x + y).subrange(a, b) == x.subrange(a, b),
{
    assert((x + y).subrange(a, b) =~= x.subrange(a, b));
}

/// The central directory unfolds from the front as well.
proof fn lemma_cd_bytes_front(rs: Seq<CdRec>)
    requires
        rs.len() > 0,
    ensures
        cd_bytes(rs) == cd_chunk(rs[0]) + cd_bytes(rs.skip(1)),
    decreases rs.len(),
{
    if rs.len() == 1 {
        assert(rs.drop_last() =~= Seq::<CdRec>::empty());
        assert(rs.skip(1) =~= Seq::<CdRec>::empty());
        assert(cd_bytes(rs) =~= cd_chunk(rs[0]) + cd_bytes(rs.skip(1)));
    } else {
        let hd = rs.drop_last();
        lemma_cd_bytes_front(hd);
        assert(hd[0] == rs[0]);
        assert(hd.skip(1) =~= rs.skip(1).drop_last());
        assert(rs.skip(1).last() == rs.last());
        assert(rs.skip(1).len() > 0);
        assert(cd_bytes(rs.skip(1)) == cd_bytes(rs.skip(1).drop_last()) + cd_chunk(
            rs.skip(1).last(),
        ));
        assert(cd_bytes(rs) == (cd_chunk(rs[0]) + cd_bytes(hd.skip(1))) + cd_chunk(rs.last()));
        assert((cd_chunk(rs[0]) + cd_bytes(hd.skip(1))) + cd_chunk(rs.last()) =~= cd_chunk(rs[0])
            + (cd_bytes(hd.skip(1)) + cd_chunk(rs.last())));
    }
}

/// A directory record written at `pos` decodes field by field: signature,
/// header, then its filename run.
#[verifier::rlimit(100)]
#[verifier::spinoff_prover]
proof fn lemma_cd_chunk_at(data: Seq<u8>, r: CdRec, pos: int)
    requires
        0 <= pos,
        pos + cd_chunk(r).len() <= data.len(),
        data.subrange(pos, pos + cd_chunk(r).len() as int) == cd_chunk(r),
        r.header.file_name_length == r.name.len(),
        r.header.extra_field_length == r.extra.len(),
        r.header.file_comment_length == r.comment.len(),
    ensures
        data.subrange(pos, pos + 4) == u32_le(crate::CENTRAL_DIRECTORY_FILE_HEADER_SIGNATURE),
        spec_parse_cdh(data, pos + 4) == r.header,
        data.subrange(pos + 46, pos + 46 + r.header.file_name_length) == r.name,
        cd_chunk(r).len() == 46 + r.name.len() + r.extra.len() + r.comment.len(),
{
    reveal(cd_chunk);
    crate::headers::lemma_cdh_bytes_len(r.header);
    let sig = u32_le(crate::CENTRAL_DIRECTORY_FILE_HEADER_SIGNATURE);
    let hb = cdh_bytes(r.header);
    lemma_peel(data, pos, sig + hb + r.name + r.extra, r.comment);
    lemma_peel(data, pos, sig + hb + r.name, r.extra);
    lemma_peel(data, pos, sig + hb, r.name);
    lemma_peel(data, pos, sig, hb);
    lemma_parse_cdh_of_bytes(data, pos + 4, r.header);
}

/// A run of directory records written contiguously at `pos` parses back
/// to exactly the entries it describes.
#[verifier::rlimit(100)]
#[verifier::spinoff_prover]
proof fn lemma_parse_cd_region(data: Seq<u8>, rs: Seq<CdRec>, pos: int)
    requires
        0 <= pos,
        pos + cd_bytes(rs).len() <= data.len(),
        data.subrange(pos, pos + cd_bytes(rs).len() as int) == cd_bytes(rs),
        forall|i: int|
            0 <= i < rs.len() ==> {
                &&& (#[trigger] rs[i]).header.file_name_length == rs[i].name.len()
                &&& rs[i].header.extra_field_length == rs[i].extra.len()
                &&& rs[i].header.file_comment_length == rs[i].comment.len()
            },
    ensures
        spec_parse_entries(data, pos, rs.len() as nat) == Ok::<Seq<EntryModel>, ZipError>(
            models_of(rs),
        ),
    decreases rs.len(),
{
    if rs.len() == 0 {
        assert(models_of(rs) =~= Seq::<EntryModel>::empty());
    } else {
        let r0 = rs[0];
        let h = r0.header;
        let chunk = cd_chunk(r0);
        let rest = cd_bytes(rs.skip(1));
        lemma_cd_bytes_front(rs);
        lemma_peel(data, pos, chunk, rest);
        lemma_cd_chunk_at(data, r0, pos);
        let end = pos + 46 + h.file_name_length + h.extra_field_length + h.file_comment_length;
        assert(end == pos + chunk.len());
        assert forall|i: int| 0 <= i < rs.skip(1).len() implies {
            &&& (#[trigger] rs.skip(1)[i]).header.file_name_length == rs.skip(1)[i].name.len()
            &&& rs.skip(1)[i].header.extra_field_length == rs.skip(1)[i].extra.len()
            &&& rs.skip(1)[i].header.file_comment_length == rs.skip(1)[i].comment.len()
        } by {
            assert(rs.skip(1)[i] == rs[i + 1]);
        }
        lemma_parse_cd_region(data, rs.skip(1), end);
        assert(spec_parse_entries(data, pos, rs.len() as nat) == Ok::<Seq<EntryModel>, ZipError>(
            seq![entry_of_cdh(h, r0.name)] + models_of(rs.skip(1)),
        ));
        assert(models_of(rs) =~= seq![entry_of_cdh(h, r0.name)] + models_of(rs.skip(1)));
    }
}

/// Entry chunks stand in the store at their recorded offsets.
#[verifier::rlimit(100)]
#[verifier::spinoff_prover]
proof fn lemma_body_chunk_at(rs: Seq<CdRec>, ps: Seq<Seq<u8>>, i: int)
    requires
        rs.len() == ps.len(),
        0 <= i < rs.len(),
    ensures
        0 <= chunk_offset(rs, ps, i),
        chunk_offset(rs, ps, i) + entry_chunk(rs[i], ps[i]).len() <= body_bytes(rs, ps).len(),
        body_bytes(rs, ps).subrange(
            chunk_offset(rs, ps, i),
            chunk_offset(rs, ps, i) + entry_chunk(rs[i], ps[i]).len() as int,
        ) == entry_chunk(rs[i], ps[i]),
    decreases rs.len(),
{
    let off = chunk_offset(rs, ps, i);
    let chunk = entry_chunk(rs[i], ps[i]);
    if i == rs.len() - 1 {
        assert(rs.take(i) =~= rs.drop_last());
        assert(ps.take(i) =~= ps.drop_last());
        assert(body_bytes(rs, ps) == body_bytes(rs.drop_last(), ps.drop_last()) + chunk);
        assert(body_bytes(rs, ps).subrange(0, body_bytes(rs, ps).len() as int) =~= body_bytes(
            rs,
            ps,
        ));
        lemma_peel(body_bytes(rs, ps), 0, body_bytes(rs.drop_last(), ps.drop_last()), chunk);
    } else {
        let hd_rs = rs.drop_last();
        let hd_ps = ps.drop_last();
        assert(hd_rs[i] == rs[i]);
        assert(hd_ps[i] == ps[i]);
        assert(hd_rs.take(i) =~= rs.take(i));
        assert(hd_ps.take(i) =~= ps.take(i));
        lemma_body_chunk_at(hd_rs, hd_ps, i);
        lemma_subrange_of_prefix(
            body_bytes(hd_rs, hd_ps),
            entry_chunk(rs.last(), ps.last()),
            off,
            off + chunk.len(),
        );
    }
}

/// The closing run of a finished store decodes back: the backward scan
/// finds the end record the writer put last, that record decodes to what
/// the writer built, and the directory region reads back byte for byte.
#[verifier::rlimit(100)]
#[verifier::spinoff_prover]
proof fn lemma_closing_locates(rs: Seq<CdRec>, ps: Seq<Seq<u8>>, data: Seq<u8>)
    requires
        rs.len() == ps.len(),
        data == body_bytes(rs, ps) + closing_bytes(
            rs,
            body_bytes(rs, ps).len() as int,
            Seq::<u8>::empty(),
        ),
    ensures
        data.len() == body_bytes(rs, ps).len() + cd_bytes(rs).len() + 22,
        spec_find_eocd(data) == Some(data.len() - 22),
        spec_parse_eocd(data, data.len() - 18) == closing_eocd(
            rs,
            body_bytes(rs, ps).len() as int,
            Seq::<u8>::empty(),
        ),
        data.subrange(
            body_bytes(rs, ps).len() as int,
            body_bytes(rs, ps).len() + cd_bytes(rs).len() as int,
        ) == cd_bytes(rs),
{
    let body = body_bytes(rs, ps);
    let cd = cd_bytes(rs);
    let e = closing_eocd(rs, body.len() as int, Seq::<u8>::empty());
    crate::headers::lemma_eocd_bytes_len(e);
    let sig = u32_le(crate::END_OF_CENTRAL_DIRECTORY_SIGNATURE);
    let tail = sig + eocd_bytes(e);
    let l = data.len() as int;
    assert(data =~= (body + cd) + tail);
    assert(data.subrange(0, l) =~= data);
    lemma_peel(data, 0, body + cd, tail);
    lemma_peel(data, (body + cd).len() as int, sig, eocd_bytes(e));
    let p = l - 22;
    assert(data.subrange(p, p + 4) == sig);
    assert(spec_find_eocd_from(data, p as nat) == Some(p));
    lemma_parse_eocd_of_bytes(data, p + 4, e);
    assert(data =~= body + (cd + tail));
    lemma_peel(data, 0, body, cd + tail);
    lemma_peel(data, body.len() as int, cd, tail);
}

/// An archive laid out by the writer and closed with an empty archive
/// comment parses back to exactly the entries it was written with: the
/// count, the order, the filenames and all recorded metadata survive the
/// trip through the bytes. Since parsing is a function of the bytes,
/// parsing such a store twice yields the same table both times.
#[verifier::rlimit(100)]
#[verifier::spinoff_prover]
pub proof fn lemma_archive_parses(rs: Seq<CdRec>, ps: Seq<Seq<u8>>, data: Seq<u8>)
    requires
        rs.len() == ps.len(),
        rs.len() <= 65535,
        forall|i: int|
            0 <= i < rs.len() ==> rec_wf(#[trigger] rs[i], ps[i], chunk_offset(rs, ps, i)),
        body_bytes(rs, ps).len() <= 0xFFFFFFFF,
        cd_bytes(rs).len() <= 0xFFFFFFFF,
        data == body_bytes(rs, ps) + closing_bytes(
            rs,
            body_bytes(rs, ps).len() as int,
            Seq::<u8>::empty(),
        ),
    ensures
        spec_parse_archive(data) == Ok::<(Seq<EntryModel>, Seq<u8>), ZipError>(
            (models_of(rs), Seq::<u8>::empty()),
        ),
{
    let body = body_bytes(rs, ps);
    lemma_closing_locates(rs, ps, data);
    let p = data.len() - 22;
    let e = closing_eocd(rs, body.len() as int, Seq::<u8>::empty());
    assert(e.cent_dir_offset == body.len());
    assert(e.num_of_entries == rs.len());
    assert forall|i: int| 0 <= i < rs.len() implies {
        &&& (#[trigger] rs[i]).header.file_name_length == rs[i].name.len()
        &&& rs[i].header.extra_field_length == rs[i].extra.len()
        &&& rs[i].header.file_comment_length == rs[i].comment.len()
    } by {
        assert(rec_wf(rs[i], ps[i], chunk_offset(rs, ps, i)));
    }
    lemma_parse_cd_region(data, rs, body.len() as int);
    assert(data.subrange(p + 22, p + 22) =~= Seq::<u8>::empty());
}

/// An entry chunk written at `off` decodes field by field: its local
/// header parses back with the lengths it declares, its payload stands
/// after the name and extra runs, and a streamed chunk carries the
/// descriptor signature right after the payload.
#[verifier::rlimit(100)]
#[verifier::spinoff_prover]
proof fn lemma_entry_chunk_fields(data: Seq<u8>, r: CdRec, pl: Seq<u8>, off: int)
    requires
        0 <= off,
        off + entry_chunk(r, pl).len() <= data.len(),
        data.subrange(off, off + entry_chunk(r, pl).len() as int) == entry_chunk(r, pl),
        r.header.file_name_length == r.name.len(),
        r.header.extra_field_length == r.extra.len(),
    ensures
        spec_parse_lfh(data, off + 4) == lfh_of_cdh(r.header),
        data.subrange(
            off + 30 + r.name.len() + r.extra.len(),
            off + 30 + r.name.len() + r.extra.len() + pl.len(),
        ) == pl,
        entry_chunk(r, pl).len() == 30 + r.name.len() + r.extra.len() + pl.len() + (
        if r.header.flags.data_descriptor {
            16int
        } else {
            0int
        }),
        r.header.flags.data_descriptor ==> data.subrange(
            off + 30 + r.name.len() + r.extra.len() + pl.len(),
            off + 30 + r.name.len() + r.extra.len() + pl.len() + 4,
        ) == u32_le(crate::DATA_DESCRIPTOR_SIGNATURE),
{
    reveal(entry_chunk);
    crate::headers::lemma_lfh_bytes_len(lfh_of_cdh(r.header));
    let lsig = u32_le(crate::LOCAL_FILE_HEADER_SIGNATURE);
    let lfh = lfh_of_cdh(r.header);
    let opening = lsig + lfh_bytes(lfh) + r.name + r.extra + pl;
    if r.header.flags.data_descriptor {
        let desc = descriptor_bytes(r.header);
        assert(entry_chunk(r, pl) == opening + desc);
        lemma_peel(data, off, opening, desc);
        assert(desc =~= u32_le(crate::DATA_DESCRIPTOR_SIGNATURE) + (u32_le(r.header.crc)
            + u32_le(r.header.compressed_size) + u32_le(r.header.uncompressed_size)));
        lemma_peel(
            data,
            off + opening.len(),
            u32_le(crate::DATA_DESCRIPTOR_SIGNATURE),
            u32_le(r.header.crc) + u32_le(r.header.compressed_size) + u32_le(
                r.header.uncompressed_size,
            ),
        );
    } else {
        assert(entry_chunk(r, pl) =~= opening);
        assert(data.subrange(off, off + opening.len() as int) == opening);
    }
    lemma_peel(data, off, lsig + lfh_bytes(lfh) + r.name + r.extra, pl);
    lemma_peel(data, off, lsig + lfh_bytes(lfh) + r.name, r.extra);
    lemma_peel(data, off, lsig + lfh_bytes(lfh), r.name);
    lemma_peel(data, off, lsig, lfh_bytes(lfh));
    lemma_parse_lfh_of_bytes(data, off + 4, lfh);
}

/// In a finished archive, framing an entry written with authoritative
/// header sizes yields exactly the compressed payload that was written.
#[verifier::rlimit(100)]
#[verifier::spinoff_prover]
pub proof fn lemma_frame_whole_entry(rs: Seq<CdRec>, ps: Seq<Seq<u8>>, data: Seq<u8>, i: int)
    requires
        rs.len() == ps.len(),
        forall|j: int|
            0 <= j < rs.len() ==> rec_wf(#[trigger] rs[j], ps[j], chunk_offset(rs, ps, j)),
        data == body_bytes(rs, ps) + closing_bytes(
            rs,
            body_bytes(rs, ps).len() as int,
            Seq::<u8>::empty(),
        ),
        0 <= i < rs.len(),
        !rs[i].header.flags.data_descriptor,
    ensures
        spec_frame_entry(data, models_of(rs)[i]) == Ok::<Seq<u8>, ZipError>(ps[i]),
{
    let body = body_bytes(rs, ps);
    let m = models_of(rs)[i];
    let h = rs[i].header;
    let chunk = entry_chunk(rs[i], ps[i]);
    let off = chunk_offset(rs, ps, i);
    lemma_body_chunk_at(rs, ps, i);
    lemma_subrange_of_prefix(
        body,
        closing_bytes(rs, body.len() as int, Seq::<u8>::empty()),
        off,
        off + chunk.len(),
    );
    lemma_entry_chunk_fields(data, rs[i], ps[i], off);
    assert(m.offset == h.lh_offset == off);
    let lfh = lfh_of_cdh(h);
    let start = off + 30 + lfh.file_name_length + lfh.extra_field_length;
    assert(start + m.compressed_size <= data.len());
    assert(data.subrange(start, start + m.compressed_size) == ps[i]);
}

/// The delimiter scan stops exactly where the first signature stands.
proof fn lemma_delim_scan(data: Seq<u8>, start: int, end: int)
    requires
        0 <= start <= end,
        end + 4 <= data.len(),
        data.subrange(end, end + 4) == u32_le(crate::DATA_DESCRIPTOR_SIGNATURE),
        forall|q: int|
            start <= q < end ==> #[trigger] data.subrange(q, q + 4) != u32_le(
                crate::DATA_DESCRIPTOR_SIGNATURE,
            ),
    ensures
        spec_find_delim_from(data, start) == Some(end),
    decreases end - start,
{
    if start < end {
        lemma_delim_scan(data, start + 1, end);
    }
}

/// In a finished archive, framing a streamed entry whose compressed
/// payload nowhere spells the data-descriptor signature yields exactly
/// that payload: the delimiter scan stops at the trailing record the
/// writer put after it. A payload that does spell the signature is the
/// format's own ambiguity and is left out here.
#[verifier::rlimit(100)]
#[verifier::spinoff_prover]
pub proof fn lemma_frame_streamed_entry(rs: Seq<CdRec>, ps: Seq<Seq<u8>>, data: Seq<u8>, i: int)
    requires
        rs.len() == ps.len(),
        forall|j: int|
            0 <= j < rs.len() ==> rec_wf(#[trigger] rs[j], ps[j], chunk_offset(rs, ps, j)),
        data == body_bytes(rs, ps) + closing_bytes(
            rs,
            body_bytes(rs, ps).len() as int,
            Seq::<u8>::empty(),
        ),
        0 <= i < rs.len(),
        rs[i].header.flags.data_descriptor,
        delim_free(ps[i]),
    ensures
        spec_frame_entry(data, models_of(rs)[i]) == Ok::<Seq<u8>, ZipError>(ps[i]),
{
    let body = body_bytes(rs, ps);
    let m = models_of(rs)[i];
    let h = rs[i].header;
    let chunk = entry_chunk(rs[i], ps[i]);
    let off = chunk_offset(rs, ps, i);
    lemma_body_chunk_at(rs, ps, i);
    lemma_subrange_of_prefix(
        body,
        closing_bytes(rs, body.len() as int, Seq::<u8>::empty()),
        off,
        off + chunk.len(),
    );
    lemma_entry_chunk_fields(data, rs[i], ps[i], off);
    assert(m.offset == h.lh_offset == off);
    let lfh = lfh_of_cdh(h);
    let dsig = u32_le(crate::DATA_DESCRIPTOR_SIGNATURE);
    let start = off + 30 + lfh.file_name_length + lfh.extra_field_length;
    let pend = start + ps[i].len();
    assert(data.subrange(pend, pend + 4) == dsig);
    assert forall|q: int| start <= q < pend implies #[trigger] data.subrange(q, q + 4)
        != dsig by {
        if q + 4 <= pend {
            assert(data.subrange(q, q + 4) =~= data.subrange(start, pend).subrange(
                q - start,
                q - start + 4,
            ));
            assert(ps[i].subrange(q - start, q - start + 4) != dsig);
        } else {
            assert(data[pend] == dsig[0]);
            assert(dsig[0] == 0x50 && dsig[1] == 0x4b && dsig[2] == 0x07 && dsig[3] == 0x08);
            if data.subrange(q, q + 4) == dsig {
                assert(data.subrange(q, q + 4)[pend - q] == data[pend]);
                assert(dsig[pend - q] == dsig[0]);
                assert(false);
            }
        }
    }
    lemma_delim_scan(data, start, pend);
    assert(data.subrange(start, pend) == ps[i]);
}


/// The whole-write round trip: an archive holding an entry written with
/// authoritative sizes parses back to its table, the entry frames to the
/// compressed bytes that were written, and decoding those bytes under the
/// entry's own recorded method restores the payload byte for byte.
pub proof fn lemma_whole_write_round_trip(
    rs: Seq<CdRec>,
    ps: Seq<Seq<u8>>,
    data: Seq<u8>,
    i: int,
    payload: Seq<u8>,
)
    requires
        rs.len() == ps.len(),
        rs.len() <= 65535,
        forall|j: int|
            0 <= j < rs.len() ==> rec_wf(#[trigger] rs[j], ps[j], chunk_offset(rs, ps, j)),
        body_bytes(rs, ps).len() <= 0xFFFFFFFF,
        cd_bytes(rs).len() <= 0xFFFFFFFF,
        data == body_bytes(rs, ps) + closing_bytes(
            rs,
            body_bytes(rs, ps).len() as int,
            Seq::<u8>::empty(),
        ),
        0 <= i < rs.len(),
        !rs[i].header.flags.data_descriptor,
        crate::compress::spec_decompress(rs[i].header.compression, ps[i]) == Ok::<
            Seq<u8>,
            ZipError,
        >(payload),
    ensures
        spec_parse_archive(data) == Ok::<(Seq<EntryModel>, Seq<u8>), ZipError>(
            (models_of(rs), Seq::<u8>::empty()),
        ),
        spec_frame_entry(data, models_of(rs)[i]) == Ok::<Seq<u8>, ZipError>(ps[i]),
        crate::compress::spec_decompress(models_of(rs)[i].compression, ps[i]) == Ok::<
            Seq<u8>,
            ZipError,
        >(payload),
{
    lemma_archive_parses(rs, ps, data);
    lemma_frame_whole_entry(rs, ps, data, i);
}

/// The streaming round trip: the same, for an entry written through the
/// incremental sink, whatever chunk boundaries fed it, as long as its
/// compressed bytes nowhere spell the delimiter signature.
pub proof fn lemma_streamed_write_round_trip(
    rs: Seq<CdRec>,
    ps: Seq<Seq<u8>>,
    data: Seq<u8>,
    i: int,
    payload: Seq<u8>,
)
    requires
        rs.len() == ps.len(),
        rs.len() <= 65535,
        forall|j: int|
            0 <= j < rs.len() ==> rec_wf(#[trigger] rs[j], ps[j], chunk_offset(rs, ps, j)),
        body_bytes(rs, ps).len() <= 0xFFFFFFFF,
        cd_bytes(rs).len() <= 0xFFFFFFFF,
        data == body_bytes(rs, ps) + closing_bytes(
            rs,
            body_bytes(rs, ps).len() as int,
            Seq::<u8>::empty(),
        ),
        0 <= i < rs.len(),
        rs[i].header.flags.data_descriptor,
        delim_free(ps[i]),
        crate::compress::spec_decompress(rs[i].header.compression, ps[i]) == Ok::<
            Seq<u8>,
            ZipError,
        >(payload),
    ensures
        spec_parse_archive(data) == Ok::<(Seq<EntryModel>, Seq<u8>), ZipError>(
            (models_of(rs), Seq::<u8>::empty()),
        ),
        spec_frame_entry(data, models_of(rs)[i]) == Ok::<Seq<u8>, ZipError>(ps[i]),
        crate::compress::spec_decompress(models_of(rs)[i].compression, ps[i]) == Ok::<
            Seq<u8>,
            ZipError,
        >(payload),
{
    lemma_archive_parses(rs, ps, data);
    lemma_frame_streamed_entry(rs, ps, data, i);
}

/// Reading a payload in two parts hands out the same bytes as reading it
/// whole: whatever split point a reader's chunked reads reach, the parts
/// concatenate to the payload, so interleaving independent readers (each
/// with its own cursor and payload) changes nothing about what each
/// yields.
pub proof fn lemma_chunked_reads_concat(payload: Seq<u8>, k: int)
    requires
        0 <= k <= payload.len(),
    ensures
        payload.take(k) + payload.skip(k) == payload,
{
    assert(payload.take(k) + payload.skip(k) =~= payload);
}

} // verus!
