//! The write side: an offset-tracked output store, a whole-payload entry
//! writer, a streaming entry writer that defers sizes to a trailing
//! data-descriptor record, and the close-time emission of the central
//! directory and end record.

use vstd::prelude::*;

use crate::checksum::{crc32_of, hasher_fed, hasher_finalize, hasher_new, hasher_update};
use crate::compress::{compress, compressed_of, method_tag, spec_decompress, Compression};
use crate::fields::{push_bytes, push_u32, slice_to_vec, u32_le};
use crate::headers::{
    cdh_bytes, eocd_bytes, lfh_bytes, push_cdh, push_eocd, push_lfh, CentralDirectoryHeader,
    EndOfCentralDirectoryHeader, GeneralPurposeFlag, LocalFileHeader,
};
use crate::ZipError;

verus! {

/// The version-made-by word this writer records: unix attributes, spec 2.0.
pub const VERSION_MADE_BY: u16 = 788;

/// The version needed to extract an entry under a method.
pub open spec fn version_needed_of(c: Compression) -> u16 {
    match c {
        Compression::Stored => 10,
        Compression::Deflate => 20,
    }
}

/// The external-attributes word carrying the unix permission bits.
pub open spec fn exter_attr_of(p: u32) -> u32 {
    ((p as int % 65536) * 65536) as u32
}

/// A set of options for opening new entries.
pub struct EntryOptions {
    /// The filename, as the bytes that will be stored.
    pub filename: Vec<u8>,
    /// Whether the filename goes beyond ASCII, recorded in the flags.
    pub unicode: bool,
    /// The compression method of the entry.
    pub compression: Compression,
    /// The extra-field bytes stored with the entry.
    pub extra: Vec<u8>,
    /// The per-entry comment stored in the central directory.
    pub comment: Vec<u8>,
    /// Unix permission bits carried in the external attributes.
    pub unix_permissions: u32,
}

impl EntryOptions {
    /// Construct a new set of options from its required constituents.
    pub fn new(filename: String, compression: Compression) -> (r: Self)
        ensures
            r.filename@ == vstd::utf8::encode_utf8(filename@),
            r.unicode == !vstd::utf8::is_ascii_chars(filename@),
            r.compression == compression,
            r.extra@ == Seq::<u8>::empty(),
            r.comment@ == Seq::<u8>::empty(),
            r.unix_permissions == 0,
    {
        let unicode = !filename.as_str().is_ascii();
        let bytes = slice_to_vec(filename.as_str().as_bytes());
        EntryOptions {
            filename: bytes,
            unicode,
            compression,
            extra: Vec::new(),
            comment: Vec::new(),
            unix_permissions: 0,
        }
    }

    /// Consume the options and override the extra field data.
    pub fn extra(self, extra: Vec<u8>) -> (r: Self)
        ensures
            r.extra == extra,
            r.filename == self.filename,
            r.unicode == self.unicode,
            r.compression == self.compression,
            r.comment == self.comment,
            r.unix_permissions == self.unix_permissions,
    {
        EntryOptions {
            filename: self.filename,
            unicode: self.unicode,
            compression: self.compression,
            extra,
            comment: self.comment,
            unix_permissions: self.unix_permissions,
        }
    }

    /// Consume the options and override the file comment.
    pub fn comment(self, comment: String) -> (r: Self)
        ensures
            r.comment@ == vstd::utf8::encode_utf8(comment@),
            r.filename == self.filename,
            r.unicode == self.unicode,
            r.compression == self.compression,
            r.extra == self.extra,
            r.unix_permissions == self.unix_permissions,
    {
        EntryOptions {
            filename: self.filename,
            unicode: self.unicode,
            compression: self.compression,
            extra: self.extra,
            comment: slice_to_vec(comment.as_str().as_bytes()),
            unix_permissions: self.unix_permissions,
        }
    }

    /// Consume the options and override the unix permission bits.
    pub fn unix_permissions(self, unix_permissions: u32) -> (r: Self)
        ensures
            r.unix_permissions == unix_permissions,
            r.filename == self.filename,
            r.unicode == self.unicode,
            r.compression == self.compression,
            r.extra == self.extra,
            r.comment == self.comment,
    {
        EntryOptions {
            filename: self.filename,
            unicode: self.unicode,
            compression: self.compression,
            extra: self.extra,
            comment: self.comment,
            unix_permissions,
        }
    }
}

/// A finalized central directory header paired with the options that
/// produced it, kept until close time to re-emit the variable-length runs.
pub struct CentralDirectoryEntry {
    pub header: CentralDirectoryHeader,
    pub opts: EntryOptions,
}

/// The mathematical shadow of a kept directory entry.
pub struct CdRec {
    pub header: CentralDirectoryHeader,
    pub name: Seq<u8>,
    pub extra: Seq<u8>,
    pub comment: Seq<u8>,
}

/// The record a kept directory entry stands for.
pub open spec fn cde_rec(c: CentralDirectoryEntry) -> CdRec {
    CdRec {
        header: c.header,
        name: c.opts.filename@,
        extra: c.opts.extra@,
        comment: c.opts.comment@,
    }
}

/// The records of the kept directory entries, in append order.
pub open spec fn cd_recs(cs: Seq<CentralDirectoryEntry>) -> Seq<CdRec> {
    cs.map_values(|c: CentralDirectoryEntry| cde_rec(c))
}

/// The local file header that was written for a kept directory entry:
/// placeholders stand where sizes were deferred to the trailing record.
pub open spec fn lfh_of_cdh(h: CentralDirectoryHeader) -> LocalFileHeader {
    LocalFileHeader {
        version: h.v_needed,
        flags: h.flags,
        compression: h.compression,
        mod_time: h.mod_time,
        mod_date: h.mod_date,
        crc: if h.flags.data_descriptor {
            0
        } else {
            h.crc
        },
        compressed_size: if h.flags.data_descriptor {
            0
        } else {
            h.compressed_size
        },
        uncompressed_size: if h.flags.data_descriptor {
            0
        } else {
            h.uncompressed_size
        },
        file_name_length: h.file_name_length,
        extra_field_length: h.extra_field_length,
    }
}

/// The trailing data-descriptor record of a streamed entry.
pub open spec fn descriptor_bytes(h: CentralDirectoryHeader) -> Seq<u8> {
    u32_le(crate::DATA_DESCRIPTOR_SIGNATURE) + u32_le(h.crc) + u32_le(h.compressed_size) + u32_le(
        h.uncompressed_size,
    )
}

/// Everything one entry occupies in the store: signature, local header,
/// name, extra bytes, compressed payload, and the trailing record when the
/// entry was streamed.
#[verifier::opaque]
pub open spec fn entry_chunk(r: CdRec, payload: Seq<u8>) -> Seq<u8> {
    u32_le(crate::LOCAL_FILE_HEADER_SIGNATURE) + lfh_bytes(lfh_of_cdh(r.header)) + r.name + r.extra
        + payload + (if r.header.flags.data_descriptor {
        descriptor_bytes(r.header)
    } else {
        Seq::<u8>::empty()
    })
}

/// The store up to the central directory: every entry's chunk, in append
/// order.
pub open spec fn body_bytes(rs: Seq<CdRec>, ps: Seq<Seq<u8>>) -> Seq<u8>
    recommends
        rs.len() == ps.len(),
    decreases rs.len(),
{
    if rs.len() == 0 {
        Seq::empty()
    } else {
        body_bytes(rs.drop_last(), ps.drop_last()) + entry_chunk(rs.last(), ps.last())
    }
}

/// Where entry `i`'s chunk starts in the store.
pub open spec fn chunk_offset(rs: Seq<CdRec>, ps: Seq<Seq<u8>>, i: int) -> int {
    body_bytes(rs.take(i), ps.take(i)).len() as int
}

/// What the header of a kept entry must say about its own variable-length
/// runs, its payload and its place in the store.
pub open spec fn rec_wf(r: CdRec, payload: Seq<u8>, offset: int) -> bool {
    &&& r.header.file_name_length == r.name.len()
    &&& r.header.extra_field_length == r.extra.len()
    &&& r.header.file_comment_length == r.comment.len()
    &&& r.header.compressed_size == payload.len()
    &&& r.header.lh_offset == offset
}

/// One entry's central directory record: signature, header, then the
/// name, extra and comment runs.
#[verifier::opaque]
pub open spec fn cd_chunk(r: CdRec) -> Seq<u8> {
    u32_le(crate::CENTRAL_DIRECTORY_FILE_HEADER_SIGNATURE) + cdh_bytes(r.header) + r.name + r.extra
        + r.comment
}

/// The whole central directory: every entry's record, in append order.
pub open spec fn cd_bytes(rs: Seq<CdRec>) -> Seq<u8>
    decreases rs.len(),
{
    if rs.len() == 0 {
        Seq::empty()
    } else {
        cd_bytes(rs.drop_last()) + cd_chunk(rs.last())
    }
}

/// The end record a closing writer emits.
pub open spec fn closing_eocd(rs: Seq<CdRec>, cd_off: int, comment: Seq<u8>) -> EndOfCentralDirectoryHeader {
    EndOfCentralDirectoryHeader {
        disk_num: 0,
        start_cent_dir_disk: 0,
        num_of_entries_disk: rs.len() as u16,
        num_of_entries: rs.len() as u16,
        size_cent_dir: cd_bytes(rs).len() as u32,
        cent_dir_offset: cd_off as u32,
        file_comm_length: comment.len() as u16,
    }
}

/// Everything a closing writer appends after the last entry: the central
/// directory, the end record and the archive comment.
pub open spec fn closing_bytes(rs: Seq<CdRec>, cd_off: int, comment: Seq<u8>) -> Seq<u8> {
    cd_bytes(rs) + u32_le(crate::END_OF_CENTRAL_DIRECTORY_SIGNATURE) + eocd_bytes(
        closing_eocd(rs, cd_off, comment),
    ) + comment
}

/// Appending one well-placed entry keeps the store equal to the
/// concatenation of its chunks and every header true of its place.
proof fn lemma_wf_push(rs: Seq<CdRec>, ps: Seq<Seq<u8>>, rec: CdRec, pl: Seq<u8>)
    requires
        rs.len() == ps.len(),
        forall|i: int|
            0 <= i < rs.len() ==> rec_wf(#[trigger] rs[i], ps[i], chunk_offset(rs, ps, i)),
        rec_wf(rec, pl, body_bytes(rs, ps).len() as int),
    ensures
        body_bytes(rs.push(rec), ps.push(pl)) == body_bytes(rs, ps) + entry_chunk(rec, pl),
        forall|i: int|
            0 <= i < rs.len() + 1 ==> rec_wf(
                #[trigger] rs.push(rec)[i],
                ps.push(pl)[i],
                chunk_offset(rs.push(rec), ps.push(pl), i),
            ),
{
    let rs2 = rs.push(rec);
    let ps2 = ps.push(pl);
    assert(rs2.drop_last() =~= rs);
    assert(ps2.drop_last() =~= ps);
    assert(body_bytes(rs2, ps2) == body_bytes(rs, ps) + entry_chunk(rec, pl));
    assert forall|i: int| 0 <= i < rs.len() + 1 implies rec_wf(
        rs2[i],
        ps2[i],
        chunk_offset(rs2, ps2, i),
    ) by {
        if i < rs.len() {
            assert(rs2.take(i) =~= rs.take(i));
            assert(ps2.take(i) =~= ps.take(i));
            assert(rec_wf(rs[i], ps[i], chunk_offset(rs, ps, i)));
        } else {
            assert(rs2.take(i) =~= rs);
            assert(ps2.take(i) =~= ps);
        }
    }
}

/// Emits one entry's opening run: signature, local header, name and extra
/// bytes, then the compressed payload.
fn emit_entry_bytes(
    out: &mut Vec<u8>,
    lfh: &LocalFileHeader,
    name: &Vec<u8>,
    extra: &Vec<u8>,
    payload: &Vec<u8>,
)
    ensures
        final(out)@ == old(out)@ + u32_le(crate::LOCAL_FILE_HEADER_SIGNATURE) + lfh_bytes(*lfh)
            + name@ + extra@ + payload@,
{
    push_u32(out, crate::LOCAL_FILE_HEADER_SIGNATURE);
    push_lfh(out, lfh);
    push_bytes(out, name.as_slice());
    push_bytes(out, extra.as_slice());
    push_bytes(out, payload.as_slice());
    assert(out@ =~= old(out)@ + u32_le(crate::LOCAL_FILE_HEADER_SIGNATURE) + lfh_bytes(*lfh)
        + name@ + extra@ + payload@);
}

/// Re-emits every kept directory entry: signature, header, then the
/// name, extra and comment runs, in append order.
fn emit_central_directory(out: &mut Vec<u8>, cd_entries: &Vec<CentralDirectoryEntry>)
    ensures
        final(out)@ == old(out)@ + cd_bytes(cd_recs(cd_entries@)),
{
    let ghost rs = cd_recs(cd_entries@);
    let count = cd_entries.len();
    let mut i: usize = 0;
    while i < count
        invariant
            i <= count,
            count == rs.len(),
            rs == cd_recs(cd_entries@),
            out@ == old(out)@ + cd_bytes(rs.take(i as int)),
        decreases count - i,
    {
        let ghost prefix = cd_bytes(rs.take(i as int));
        push_u32(out, crate::CENTRAL_DIRECTORY_FILE_HEADER_SIGNATURE);
        push_cdh(out, &cd_entries[i].header);
        push_bytes(out, cd_entries[i].opts.filename.as_slice());
        push_bytes(out, cd_entries[i].opts.extra.as_slice());
        push_bytes(out, cd_entries[i].opts.comment.as_slice());
        proof {
            reveal(cd_chunk);
            assert(rs[i as int] == cde_rec(cd_entries@[i as int]));
            assert(cdh_bytes(rs[i as int].header) == cdh_bytes(cd_entries@[i as int].header));
            assert(rs.take(i + 1).drop_last() =~= rs.take(i as int));
            assert(rs.take(i + 1).last() == rs[i as int]);
            assert(cd_bytes(rs.take(i + 1)) == prefix + cd_chunk(rs[i as int]));
            assert(out@ =~= old(out)@ + (prefix + cd_chunk(rs[i as int])));
        }
        i = i + 1;
    }
    proof {
        assert(rs.take(count as int) =~= rs);
    }
}

/// A writer building an archive in an owned, offset-tracked output store.
/// The store always holds exactly the chunks of the entries appended so
/// far, in order.
pub struct ZipFileWriter {
    /// The output store; its length is the current write offset.
    pub out: Vec<u8>,
    /// The directory entries of the finished entries, in append order.
    pub cd_entries: Vec<CentralDirectoryEntry>,
    /// The archive comment, when one was set.
    pub comment_opt: Option<Vec<u8>>,
    /// The compressed payload each finished entry was written with.
    pub payloads: Ghost<Seq<Seq<u8>>>,
}

impl ZipFileWriter {
    /// The store is exactly the chunks of the kept entries, and every
    /// kept header tells the truth about its entry.
    pub open spec fn wf(self) -> bool {
        let rs = cd_recs(self.cd_entries@);
        let ps = self.payloads@;
        &&& rs.len() == ps.len()
        &&& self.out@ == body_bytes(rs, ps)
        &&& forall|i: int|
            0 <= i < rs.len() ==> rec_wf(#[trigger] rs[i], ps[i], chunk_offset(rs, ps, i))
    }

    /// Construct a new writer with an empty store.
    pub fn new() -> (r: Self)
        ensures
            r.wf(),
            r.out@ == Seq::<u8>::empty(),
            r.cd_entries@.len() == 0,
            r.payloads@ == Seq::<Seq<u8>>::empty(),
            r.comment_opt is None,
    {
        let w = ZipFileWriter {
            out: Vec::new(),
            cd_entries: Vec::new(),
            comment_opt: None,
            payloads: Ghost(Seq::empty()),
        };
        proof {
            assert(cd_recs(w.cd_entries@) =~= Seq::<CdRec>::empty());
        }
        w
    }

    /// Set the archive comment emitted after the end record.
    pub fn comment(&mut self, comment: String)
        ensures
            final(self).comment_opt matches Some(c) && c@ == vstd::utf8::encode_utf8(comment@),
            final(self).out == old(self).out,
            final(self).cd_entries == old(self).cd_entries,
            final(self).payloads == old(self).payloads,
    {
        self.comment_opt = Some(slice_to_vec(comment.as_str().as_bytes()));
    }

    /// Write a new entry of known size and data: the checksum and both
    /// sizes are computed up front, the local header carries real values,
    /// and no trailing record is written. Fails only when a size or the
    /// current offset does not fit the format's 32-bit fields, leaving the
    /// writer unchanged.
    #[verifier::rlimit(100)]
    #[verifier::spinoff_prover]
    pub fn write_entry_whole(&mut self, options: EntryOptions, data: &[u8]) -> (r: Result<
        (),
        ZipError,
    >)
        requires
            old(self).wf(),
            options.filename@.len() <= 65535,
            options.extra@.len() <= 65535,
            options.comment@.len() <= 65535,
            data@.len() <= 0xFFFFFFFF,
        ensures
            r is Ok <==> (compressed_of(options.compression, data@).len() <= 0xFFFFFFFF && old(
                self,
            ).out@.len() <= 0xFFFFFFFF),
            r is Err ==> r == Err::<(), ZipError>(ZipError::SizeLimitExceeded) && *final(self)
                == *old(self),
            r is Ok ==> ({
                let pl = compressed_of(options.compression, data@);
                let rec = cde_rec(final(self).cd_entries@.last());
                &&& final(self).wf()
                &&& final(self).cd_entries@.len() == old(self).cd_entries@.len() + 1
                &&& final(self).cd_entries@.drop_last() == old(self).cd_entries@
                &&& final(self).payloads@ == old(self).payloads@.push(pl)
                &&& rec.name == options.filename@
                &&& rec.extra == options.extra@
                &&& rec.comment == options.comment@
                &&& rec.header.crc == crc32_of(data@)
                &&& rec.header.compressed_size == pl.len()
                &&& rec.header.uncompressed_size == data@.len()
                &&& rec.header.compression == method_tag(options.compression)
                &&& rec.header.flags == (GeneralPurposeFlag {
                    encrypted: false,
                    data_descriptor: false,
                    filename_unicode: options.unicode,
                })
                &&& rec.header.lh_offset == old(self).out@.len()
                &&& rec.header.v_needed == version_needed_of(options.compression)
                &&& rec.header.exter_attr == exter_attr_of(options.unix_permissions)
                &&& spec_decompress(method_tag(options.compression), pl) == Ok::<
                    Seq<u8>,
                    ZipError,
                >(data@)
                &&& final(self).out@ == old(self).out@ + entry_chunk(rec, pl)
                &&& final(self).comment_opt == old(self).comment_opt
            }),
    {
        let compressed = compress(options.compression, data);
        if compressed.len() > 0xFFFFFFFFusize || self.out.len() > 0xFFFFFFFFusize {
            return Err(ZipError::SizeLimitExceeded);
        }
        let mut hasher = hasher_new();
        hasher_update(&mut hasher, data);
        proof {
            assert(hasher_fed(hasher) =~= data@);
        }
        let crc = hasher_finalize(hasher);
        let (mod_time, mod_date) = crate::timestamp::current_dos_datetime();
        let offset = self.out.len();
        let version = match options.compression {
            Compression::Stored => 10,
            Compression::Deflate => 20,
        };
        let flags = GeneralPurposeFlag {
            encrypted: false,
            data_descriptor: false,
            filename_unicode: options.unicode,
        };
        let lfh = LocalFileHeader {
            version,
            flags,
            compression: options.compression.to_u16(),
            mod_time,
            mod_date,
            crc,
            compressed_size: compressed.len() as u32,
            uncompressed_size: data.len() as u32,
            file_name_length: options.filename.len() as u16,
            extra_field_length: options.extra.len() as u16,
        };
        emit_entry_bytes(&mut self.out, &lfh, &options.filename, &options.extra, &compressed);
        let cdh = CentralDirectoryHeader {
            v_made_by: VERSION_MADE_BY,
            v_needed: version,
            flags,
            compression: lfh.compression,
            mod_time,
            mod_date,
            crc,
            compressed_size: lfh.compressed_size,
            uncompressed_size: lfh.uncompressed_size,
            file_name_length: lfh.file_name_length,
            extra_field_length: lfh.extra_field_length,
            file_comment_length: options.comment.len() as u16,
            disk_start: 0,
            inter_attr: 0,
            exter_attr: (options.unix_permissions % 65536) * 65536,
            lh_offset: offset as u32,
        };
        let ghost old_rs = cd_recs(old(self).cd_entries@);
        let ghost old_ps = old(self).payloads@;
        let entry = CentralDirectoryEntry { header: cdh, opts: options };
        let ghost rec = cde_rec(entry);
        let ghost pl = compressed@;
        self.cd_entries.push(entry);
        self.payloads = Ghost(old_ps.push(pl));
        proof {
            reveal(entry_chunk);
            crate::headers::lemma_lfh_bytes_len(lfh);
            assert(lfh_of_cdh(rec.header) == lfh);
            assert(entry_chunk(rec, pl) =~= u32_le(crate::LOCAL_FILE_HEADER_SIGNATURE)
                + lfh_bytes(lfh) + rec.name + rec.extra + pl);
            assert(self.out@ == old(self).out@ + entry_chunk(rec, pl));
            assert(cd_recs(self.cd_entries@) =~= old_rs.push(rec));
            assert(self.cd_entries@.drop_last() =~= old(self).cd_entries@);
            lemma_wf_push(old_rs, old_ps, rec, pl);
        }
        Ok(())
    }
}

/// An entry writer for streaming payloads of unknown size: bytes fed in
/// are buffered and checksummed; the local header already in the store
/// carries placeholders and the data-descriptor flag, and close writes the
/// payload, the trailing record and the directory entry. It holds the
/// archive writer for its whole life, so only one entry can be under
/// construction at a time, and hands the writer back on close.
pub struct EntryStreamWriter {
    /// The archive writer on lease.
    pub inner: ZipFileWriter,
    /// The options the entry was opened with.
    pub options: EntryOptions,
    /// The running checksum over the uncompressed bytes fed so far.
    pub hasher: crc32fast::Hasher,
    /// The uncompressed bytes fed so far.
    pub buffer: Vec<u8>,
    /// The placeholder local header already written to the store.
    pub lfh: LocalFileHeader,
    /// Where that local header starts in the store.
    pub lfh_offset: usize,
}

impl EntryStreamWriter {
    /// The leased store holds the finished entries' chunks followed by
    /// this entry's opening run, the checksum tracks the buffer, and the
    /// placeholder header tells the truth about the options.
    pub open spec fn wf(self) -> bool {
        let rs = cd_recs(self.inner.cd_entries@);
        let ps = self.inner.payloads@;
        &&& rs.len() == ps.len()
        &&& forall|i: int|
            0 <= i < rs.len() ==> rec_wf(#[trigger] rs[i], ps[i], chunk_offset(rs, ps, i))
        &&& self.lfh_offset == body_bytes(rs, ps).len()
        &&& self.lfh_offset <= 0xFFFFFFFF
        &&& self.inner.out@ == body_bytes(rs, ps) + (u32_le(crate::LOCAL_FILE_HEADER_SIGNATURE)
            + lfh_bytes(self.lfh) + self.options.filename@ + self.options.extra@)
        &&& hasher_fed(self.hasher) == self.buffer@
        &&& self.lfh.flags == (GeneralPurposeFlag {
            encrypted: false,
            data_descriptor: true,
            filename_unicode: self.options.unicode,
        })
        &&& self.lfh.crc == 0
        &&& self.lfh.compressed_size == 0
        &&& self.lfh.uncompressed_size == 0
        &&& self.lfh.compression == method_tag(self.options.compression)
        &&& self.lfh.file_name_length == self.options.filename@.len()
        &&& self.lfh.extra_field_length == self.options.extra@.len()
        &&& self.options.filename@.len() <= 65535
        &&& self.options.extra@.len() <= 65535
        &&& self.options.comment@.len() <= 65535
    }

    /// Feed more payload bytes: they are buffered and checksummed; nothing
    /// reaches the store before close.
    pub fn write(&mut self, buf: &[u8])
        requires
            old(self).wf(),
        ensures
            final(self).wf(),
            final(self).buffer@ == old(self).buffer@ + buf@,
            final(self).inner == old(self).inner,
            final(self).options == old(self).options,
            final(self).lfh == old(self).lfh,
            final(self).lfh_offset == old(self).lfh_offset,
    {
        hasher_update(&mut self.hasher, buf);
        push_bytes(&mut self.buffer, buf);
    }

    /// Consumes this entry writer and completes all closing tasks:
    /// finalizes the checksum, compresses and writes the buffered payload,
    /// writes the trailing data-descriptor record, appends the directory
    /// entry carrying the final sizes, and hands the archive writer back.
    /// Fails only when a final size does not fit the format's 32-bit
    /// fields; the lease is then lost and the archive must be discarded.
    #[verifier::rlimit(100)]
    #[verifier::spinoff_prover]
    pub fn close(self) -> (r: Result<ZipFileWriter, ZipError>)
        requires
            self.wf(),
        ensures
            r is Ok <==> (compressed_of(self.options.compression, self.buffer@).len()
                <= 0xFFFFFFFF && self.buffer@.len() <= 0xFFFFFFFF),
            r is Err ==> r == Err::<ZipFileWriter, ZipError>(ZipError::SizeLimitExceeded),
            r matches Ok(w) ==> ({
                let pl = compressed_of(self.options.compression, self.buffer@);
                let rec = cde_rec(w.cd_entries@.last());
                &&& w.wf()
                &&& w.cd_entries@.len() == self.inner.cd_entries@.len() + 1
                &&& w.cd_entries@.drop_last() == self.inner.cd_entries@
                &&& w.payloads@ == self.inner.payloads@.push(pl)
                &&& rec.name == self.options.filename@
                &&& rec.extra == self.options.extra@
                &&& rec.comment == self.options.comment@
                &&& rec.header.crc == crc32_of(self.buffer@)
                &&& rec.header.compressed_size == pl.len()
                &&& rec.header.uncompressed_size == self.buffer@.len()
                &&& rec.header.compression == method_tag(self.options.compression)
                &&& rec.header.flags == (GeneralPurposeFlag {
                    encrypted: false,
                    data_descriptor: true,
                    filename_unicode: self.options.unicode,
                })
                &&& rec.header.lh_offset == self.lfh_offset
                &&& rec.header.v_needed == self.lfh.version
                &&& rec.header.exter_attr == exter_attr_of(self.options.unix_permissions)
                &&& spec_decompress(method_tag(self.options.compression), pl) == Ok::<
                    Seq<u8>,
                    ZipError,
                >(self.buffer@)
                &&& w.out@ == self.inner.out@ + pl + descriptor_bytes(rec.header)
                &&& w.comment_opt == self.inner.comment_opt
            }),
    {
        let EntryStreamWriter { mut inner, options, hasher, buffer, lfh, lfh_offset } = self;
        let compressed = compress(options.compression, buffer.as_slice());
        if compressed.len() > 0xFFFFFFFFusize || buffer.len() > 0xFFFFFFFFusize {
            return Err(ZipError::SizeLimitExceeded);
        }
        let crc = hasher_finalize(hasher);
        push_bytes(&mut inner.out, compressed.as_slice());
        push_u32(&mut inner.out, crate::DATA_DESCRIPTOR_SIGNATURE);
        push_u32(&mut inner.out, crc);
        push_u32(&mut inner.out, compressed.len() as u32);
        push_u32(&mut inner.out, buffer.len() as u32);
        let cdh = CentralDirectoryHeader {
            v_made_by: VERSION_MADE_BY,
            v_needed: lfh.version,
            flags: lfh.flags,
            compression: lfh.compression,
            mod_time: lfh.mod_time,
            mod_date: lfh.mod_date,
            crc,
            compressed_size: compressed.len() as u32,
            uncompressed_size: buffer.len() as u32,
            file_name_length: lfh.file_name_length,
            extra_field_length: lfh.extra_field_length,
            file_comment_length: options.comment.len() as u16,
            disk_start: 0,
            inter_attr: 0,
            exter_attr: (options.unix_permissions % 65536) * 65536,
            lh_offset: lfh_offset as u32,
        };
        let ghost old_rs = cd_recs(self.inner.cd_entries@);
        let ghost old_ps = self.inner.payloads@;
        let entry = CentralDirectoryEntry { header: cdh, opts: options };
        let ghost rec = cde_rec(entry);
        let ghost pl = compressed@;
        inner.cd_entries.push(entry);
        inner.payloads = Ghost(old_ps.push(pl));
        proof {
            reveal(entry_chunk);
            crate::headers::lemma_lfh_bytes_len(lfh);
            assert(lfh_of_cdh(rec.header) == lfh);
            assert(entry_chunk(rec, pl) =~= (u32_le(crate::LOCAL_FILE_HEADER_SIGNATURE)
                + lfh_bytes(lfh) + rec.name + rec.extra) + pl + descriptor_bytes(rec.header));
            assert(inner.out@ =~= body_bytes(old_rs, old_ps) + entry_chunk(rec, pl));
            assert(cd_recs(inner.cd_entries@) =~= old_rs.push(rec));
            assert(inner.cd_entries@.drop_last() =~= self.inner.cd_entries@);
            lemma_wf_push(old_rs, old_ps, rec, pl);
            assert(inner.out@ =~= self.inner.out@ + pl + descriptor_bytes(rec.header));
        }
        Ok(inner)
    }
}

impl ZipFileWriter {
    /// Write an entry of unknown size via streaming, using a trailing
    /// data-descriptor record: the placeholder local header goes to the
    /// store now, and the returned writer holds this archive writer until
    /// its close.
    pub fn write_entry_stream(self, options: EntryOptions) -> (w: EntryStreamWriter)
        requires
            self.wf(),
            self.out@.len() <= 0xFFFFFFFF,
            options.filename@.len() <= 65535,
            options.extra@.len() <= 65535,
            options.comment@.len() <= 65535,
        ensures
            w.wf(),
            w.inner.cd_entries == self.cd_entries,
            w.inner.payloads == self.payloads,
            w.inner.comment_opt == self.comment_opt,
            w.options == options,
            w.buffer@ == Seq::<u8>::empty(),
            w.lfh_offset == self.out@.len(),
            w.lfh.version == version_needed_of(options.compression),
            w.inner.out@ == self.out@ + (u32_le(crate::LOCAL_FILE_HEADER_SIGNATURE) + lfh_bytes(
                w.lfh,
            ) + options.filename@ + options.extra@),
    {
        let mut inner = self;
        let lfh_offset = inner.out.len();
        let (mod_time, mod_date) = crate::timestamp::current_dos_datetime();
        let version = match options.compression {
            Compression::Stored => 10,
            Compression::Deflate => 20,
        };
        let lfh = LocalFileHeader {
            version,
            flags: GeneralPurposeFlag {
                encrypted: false,
                data_descriptor: true,
                filename_unicode: options.unicode,
            },
            compression: options.compression.to_u16(),
            mod_time,
            mod_date,
            crc: 0,
            compressed_size: 0,
            uncompressed_size: 0,
            file_name_length: options.filename.len() as u16,
            extra_field_length: options.extra.len() as u16,
        };
        push_u32(&mut inner.out, crate::LOCAL_FILE_HEADER_SIGNATURE);
        push_lfh(&mut inner.out, &lfh);
        push_bytes(&mut inner.out, options.filename.as_slice());
        push_bytes(&mut inner.out, options.extra.as_slice());
        let hasher = hasher_new();
        let w = EntryStreamWriter {
            inner,
            options,
            hasher,
            buffer: Vec::new(),
            lfh,
            lfh_offset,
        };
        proof {
            assert(w.inner.out@ =~= self.out@ + (u32_le(crate::LOCAL_FILE_HEADER_SIGNATURE)
                + lfh_bytes(lfh) + w.options.filename@ + w.options.extra@));
        }
        w
    }

    /// Consumes this writer and completes all closing tasks: re-emits
    /// every kept directory entry, writes the end-of-central-directory
    /// record and the archive comment, and returns the finished store.
    /// Fails only when the entry count, the directory size or an offset
    /// does not fit the format's fields.
    #[verifier::rlimit(100)]
    #[verifier::spinoff_prover]
    pub fn close(self) -> (r: Result<Vec<u8>, ZipError>)
        ensures
            ({
                let rs = cd_recs(self.cd_entries@);
                let cmt = match self.comment_opt {
                    Some(c) => c@,
                    None => Seq::<u8>::empty(),
                };
                &&& (r is Ok <==> (rs.len() <= 65535 && cmt.len() <= 65535 && cd_bytes(rs).len()
                    <= 0xFFFFFFFF && self.out@.len() <= 0xFFFFFFFF))
                &&& (r matches Ok(out) ==> out@ == self.out@ + closing_bytes(
                    rs,
                    self.out@.len() as int,
                    cmt,
                ))
                &&& (r is Err ==> r == Err::<Vec<u8>, ZipError>(ZipError::SizeLimitExceeded))
            }),
    {
        let ghost rs = cd_recs(self.cd_entries@);
        let ghost cmt = (match self.comment_opt {
            Some(ref c) => c@,
            None => Seq::<u8>::empty(),
        });
        let mut this = self;
        let count = this.cd_entries.len();
        if count > 65535 {
            return Err(ZipError::SizeLimitExceeded);
        }
        let cd_start = this.out.len();
        if cd_start > 0xFFFFFFFFusize {
            return Err(ZipError::SizeLimitExceeded);
        }
        let comment_len = match &this.comment_opt {
            Some(c) => c.len(),
            None => 0,
        };
        if comment_len > 65535 {
            return Err(ZipError::SizeLimitExceeded);
        }
        emit_central_directory(&mut this.out, &this.cd_entries);
        let cd_size = this.out.len() - cd_start;
        if cd_size > 0xFFFFFFFFusize {
            return Err(ZipError::SizeLimitExceeded);
        }
        let eocd = EndOfCentralDirectoryHeader {
            disk_num: 0,
            start_cent_dir_disk: 0,
            num_of_entries_disk: count as u16,
            num_of_entries: count as u16,
            size_cent_dir: cd_size as u32,
            cent_dir_offset: cd_start as u32,
            file_comm_length: comment_len as u16,
        };
        push_u32(&mut this.out, crate::END_OF_CENTRAL_DIRECTORY_SIGNATURE);
        push_eocd(&mut this.out, &eocd);
        if let Some(c) = &this.comment_opt {
            push_bytes(&mut this.out, c.as_slice());
        }
        proof {
            assert(closing_eocd(rs, self.out@.len() as int, cmt) == eocd);
            assert(this.out@ =~= self.out@ + closing_bytes(rs, self.out@.len() as int, cmt));
        }
        Ok(this.out)
    }
}

} // verus!
