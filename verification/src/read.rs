//! The read side: locating and parsing the central directory of an archive
//! held in memory, and framing and decompressing single entries on demand.

use vstd::prelude::*;

use crate::compress::{decompress, spec_decompress};
use crate::fields::{copy_range, sig_at, u32_le};
use crate::headers::{
    parse_cdh, parse_eocd, parse_lfh, spec_parse_cdh, spec_parse_eocd, spec_parse_lfh,
    CentralDirectoryHeader, GeneralPurposeFlag,
};
use crate::ZipError;

verus! {

/// One row of the entry table: the authoritative metadata of an entry, as
/// the central directory records it.
pub struct ZipEntry {
    /// The stored filename, byte-exact.
    pub filename: Vec<u8>,
    /// The compression-method tag.
    pub compression: u16,
    /// The CRC-32 of the uncompressed payload.
    pub crc: u32,
    /// The size of the payload as stored.
    pub compressed_size: u32,
    /// The size of the payload once decompressed.
    pub uncompressed_size: u32,
    /// The position of the entry's local file header in the store.
    pub offset: u32,
    /// The general-purpose flag bits.
    pub flags: GeneralPurposeFlag,
    /// The last-modified time, DOS-encoded.
    pub mod_time: u16,
    /// The last-modified date, DOS-encoded.
    pub mod_date: u16,
}

/// The mathematical shadow of a `ZipEntry`.
pub struct EntryModel {
    pub filename: Seq<u8>,
    pub compression: u16,
    pub crc: u32,
    pub compressed_size: u32,
    pub uncompressed_size: u32,
    pub offset: u32,
    pub flags: GeneralPurposeFlag,
    pub mod_time: u16,
    pub mod_date: u16,
}

impl View for ZipEntry {
    type V = EntryModel;

    open spec fn view(&self) -> EntryModel {
        EntryModel {
            filename: self.filename@,
            compression: self.compression,
            crc: self.crc,
            compressed_size: self.compressed_size,
            uncompressed_size: self.uncompressed_size,
            offset: self.offset,
            flags: self.flags,
            mod_time: self.mod_time,
            mod_date: self.mod_date,
        }
    }
}

impl ZipEntry {
    /// Whether sizes and checksum were deferred to a trailing
    /// data-descriptor record when this entry was written.
    pub fn data_descriptor(&self) -> (r: bool)
        ensures
            r == self.flags.data_descriptor,
    {
        self.flags.data_descriptor
    }
}

/// The models of a row of entries, in table order.
pub open spec fn entries_model(es: Seq<ZipEntry>) -> Seq<EntryModel> {
    es.map_values(|e: ZipEntry| e@)
}

/// The entry a central directory header and its filename bytes describe.
pub open spec fn entry_of_cdh(h: CentralDirectoryHeader, name: Seq<u8>) -> EntryModel {
    EntryModel {
        filename: name,
        compression: h.compression,
        crc: h.crc,
        compressed_size: h.compressed_size,
        uncompressed_size: h.uncompressed_size,
        offset: h.lh_offset,
        flags: h.flags,
        mod_time: h.mod_time,
        mod_date: h.mod_date,
    }
}

/// The lowest position the backward scan for the end record may reach:
/// just far enough back to allow the largest legal trailing comment.
pub open spec fn eocd_scan_floor(len: int) -> int {
    if len - 22 - 65535 >= 0 {
        len - 22 - 65535
    } else {
        0
    }
}

/// The backward scan for the end-of-central-directory signature, probing
/// `p` first and moving down to the floor.
pub open spec fn spec_find_eocd_from(data: Seq<u8>, p: nat) -> Option<int>
    decreases p,
{
    if p + 22 > data.len() {
        None
    } else if data.subrange(p as int, p as int + 4) == u32_le(
        crate::END_OF_CENTRAL_DIRECTORY_SIGNATURE,
    ) {
        Some(p as int)
    } else if p == 0 || p <= eocd_scan_floor(data.len() as int) {
        None
    } else {
        spec_find_eocd_from(data, (p - 1) as nat)
    }
}

/// Where the end-of-central-directory record starts, if its signature
/// stands anywhere in the scan window ending at the end of the store.
pub open spec fn spec_find_eocd(data: Seq<u8>) -> Option<int> {
    if data.len() < 22 {
        None
    } else {
        spec_find_eocd_from(data, (data.len() - 22) as nat)
    }
}

/// The run of central directory headers declared by the end record: entry
/// models in file order, or the first structural failure.
pub open spec fn spec_parse_entries(data: Seq<u8>, pos: int, count: nat) -> Result<
    Seq<EntryModel>,
    ZipError,
>
    decreases count,
{
    if count == 0 {
        Ok(Seq::empty())
    } else if !(0 <= pos && pos + 46 <= data.len() && data.subrange(pos, pos + 4) == u32_le(
        crate::CENTRAL_DIRECTORY_FILE_HEADER_SIGNATURE,
    )) {
        Err(ZipError::EntryCountMismatch)
    } else {
        let h = spec_parse_cdh(data, pos + 4);
        let end = pos + 46 + h.file_name_length + h.extra_field_length + h.file_comment_length;
        if end > data.len() {
            Err(ZipError::TruncatedData)
        } else {
            let name = data.subrange(pos + 46, pos + 46 + h.file_name_length);
            match spec_parse_entries(data, end, (count - 1) as nat) {
                Ok(rest) => Ok(seq![entry_of_cdh(h, name)] + rest),
                Err(e) => Err(e),
            }
        }
    }
}

/// What parsing a whole archive store yields: the entry table and the
/// archive comment, or the failure the store forces.
pub open spec fn spec_parse_archive(data: Seq<u8>) -> Result<(Seq<EntryModel>, Seq<u8>), ZipError> {
    match spec_find_eocd(data) {
        None => Err(ZipError::MalformedArchive),
        Some(p) => {
            let eocd = spec_parse_eocd(data, p + 4);
            if p + 22 + eocd.file_comm_length > data.len() {
                Err(ZipError::TruncatedData)
            } else {
                let comment = data.subrange(p + 22, p + 22 + eocd.file_comm_length);
                match spec_parse_entries(
                    data,
                    eocd.cent_dir_offset as int,
                    eocd.num_of_entries as nat,
                ) {
                    Ok(es) => Ok((es, comment)),
                    Err(e) => Err(e),
                }
            }
        },
    }
}

/// Scans backward from the end of the store for the end record signature.
fn find_eocd(data: &Vec<u8>) -> (r: Option<usize>)
    ensures
        match r {
            Some(p) => {
                &&& spec_find_eocd(data@) == Some(p as int)
                &&& p + 22 <= data@.len()
                &&& data@.subrange(p as int, p as int + 4) == u32_le(
                    crate::END_OF_CENTRAL_DIRECTORY_SIGNATURE,
                )
            },
            None => spec_find_eocd(data@) is None,
        },
{
    let n: usize = data.len();
    if n < 22 {
        return None;
    }
    let top: usize = n - 22;
    let floor: usize = if top > 65535 {
        top - 65535
    } else {
        0
    };
    let mut p: usize = top;
    loop
        invariant
            floor <= p <= top,
            top == n - 22,
            n == data@.len(),
            n >= 22,
            floor == eocd_scan_floor(n as int),
            spec_find_eocd(data@) == spec_find_eocd_from(data@, p as nat),
        decreases p,
    {
        if sig_at(data, p, crate::END_OF_CENTRAL_DIRECTORY_SIGNATURE) {
            return Some(p);
        }
        if p == floor {
            return None;
        }
        p = p - 1;
    }
}


/// One step of the central directory walk: consuming a decodable header
/// advances the tail of the parse while keeping the whole parse equal to
/// the prefix read so far plus that tail.
proof fn lemma_parse_step(
    data: Seq<u8>,
    total_pos: int,
    total_count: nat,
    k: nat,
    pos: int,
    prefix: Seq<EntryModel>,
)
    requires
        0 < k,
        0 <= pos,
        pos + 46 <= data.len(),
        data.subrange(pos, pos + 4) == u32_le(crate::CENTRAL_DIRECTORY_FILE_HEADER_SIGNATURE),
        pos + 46 + spec_parse_cdh(data, pos + 4).file_name_length + spec_parse_cdh(
            data,
            pos + 4,
        ).extra_field_length + spec_parse_cdh(data, pos + 4).file_comment_length <= data.len(),
        (match spec_parse_entries(data, pos, k) {
            Ok(rest) => spec_parse_entries(data, total_pos, total_count) == Ok::<
                Seq<EntryModel>,
                ZipError,
            >(prefix + rest),
            Err(e) => spec_parse_entries(data, total_pos, total_count) == Err::<
                Seq<EntryModel>,
                ZipError,
            >(e),
        }),
    ensures
        ({
            let h = spec_parse_cdh(data, pos + 4);
            let em = entry_of_cdh(h, data.subrange(pos + 46, pos + 46 + h.file_name_length));
            let new_pos = pos + 46 + h.file_name_length + h.extra_field_length
                + h.file_comment_length;
            match spec_parse_entries(data, new_pos, (k - 1) as nat) {
                Ok(rest) => spec_parse_entries(data, total_pos, total_count) == Ok::<
                    Seq<EntryModel>,
                    ZipError,
                >((prefix + seq![em]) + rest),
                Err(e) => spec_parse_entries(data, total_pos, total_count) == Err::<
                    Seq<EntryModel>,
                    ZipError,
                >(e),
            }
        }),
{
    let h = spec_parse_cdh(data, pos + 4);
    let em = entry_of_cdh(h, data.subrange(pos + 46, pos + 46 + h.file_name_length));
    let new_pos = pos + 46 + h.file_name_length + h.extra_field_length + h.file_comment_length;
    assert(spec_parse_entries(data, pos, k) == (match spec_parse_entries(
        data,
        new_pos,
        (k - 1) as nat,
    ) {
        Ok(rest) => Ok::<Seq<EntryModel>, ZipError>(seq![em] + rest),
        Err(e) => Err::<Seq<EntryModel>, ZipError>(e),
    }));
    match spec_parse_entries(data, new_pos, (k - 1) as nat) {
        Ok(rest) => {
            assert(prefix + (seq![em] + rest) =~= (prefix + seq![em]) + rest);
        },
        Err(_) => {},
    }
}

/// A reader over a finished archive: the backing store and the entry
/// table parsed from its central directory.
pub struct ZipFileReader {
    /// The whole backing store.
    pub data: Vec<u8>,
    /// The entry table, in file order.
    pub entries: Vec<ZipEntry>,
    /// The archive comment, empty when none was written.
    pub comment: Vec<u8>,
}

impl ZipFileReader {
    /// Parses the central directory of the store and builds the entry
    /// table, without touching any payload bytes. Parsing is a function
    /// of the store alone, so two calls on equal stores yield equal
    /// tables.
    #[verifier::rlimit(100)]
    pub fn new(data: Vec<u8>) -> (r: Result<ZipFileReader, ZipError>)
        ensures
            match r {
                Ok(z) => {
                    &&& spec_parse_archive(data@) matches Ok(pr) && entries_model(z.entries@)
                        == pr.0 && z.comment@ == pr.1
                    &&& z.data@ == data@
                },
                Err(e) => spec_parse_archive(data@) == Err::<
                    (Seq<EntryModel>, Seq<u8>),
                    ZipError,
                >(e),
            },
    {
        let n: usize = data.len();
        let p = match find_eocd(&data) {
            Some(p) => p,
            None => {
                return Err(ZipError::MalformedArchive);
            },
        };
        let eocd = parse_eocd(&data, p + 4);
        let fcl = eocd.file_comm_length as usize;
        if fcl > n - (p + 22) {
            return Err(ZipError::TruncatedData);
        }
        let comment = copy_range(&data, p + 22, p + 22 + fcl);
        let count = eocd.num_of_entries as usize;
        let cd_off = eocd.cent_dir_offset as usize;
        let ghost total = spec_parse_entries(data@, cd_off as int, count as nat);
        proof {
            assert(spec_parse_archive(data@) == (match total {
                Ok(es) => Ok::<(Seq<EntryModel>, Seq<u8>), ZipError>((es, comment@)),
                Err(e) => Err::<(Seq<EntryModel>, Seq<u8>), ZipError>(e),
            }));
        }
        let mut entries: Vec<ZipEntry> = Vec::new();
        let mut pos: usize = cd_off;
        let mut i: usize = 0;
        proof {
            assert(entries_model(entries@) =~= Seq::<EntryModel>::empty());
            if total is Ok {
                assert(entries_model(entries@) + total->Ok_0 =~= total->Ok_0);
            }
        }
        while i < count
            invariant
                i <= count,
                n == data@.len(),
                total == spec_parse_entries(data@, cd_off as int, count as nat),
                spec_parse_archive(data@) == (match total {
                    Ok(es) => Ok::<(Seq<EntryModel>, Seq<u8>), ZipError>((es, comment@)),
                    Err(e) => Err::<(Seq<EntryModel>, Seq<u8>), ZipError>(e),
                }),
                (match spec_parse_entries(data@, pos as int, (count - i) as nat) {
                    Ok(rest) => total == Ok::<Seq<EntryModel>, ZipError>(
                        entries_model(entries@) + rest,
                    ),
                    Err(e) => total == Err::<Seq<EntryModel>, ZipError>(e),
                }),
            decreases count - i,
        {
            if n < 46 || pos > n - 46 || !sig_at(
                &data,
                pos,
                crate::CENTRAL_DIRECTORY_FILE_HEADER_SIGNATURE,
            ) {
                return Err(ZipError::EntryCountMismatch);
            }
            let h = parse_cdh(&data, pos + 4);
            let nl = h.file_name_length as usize;
            let el = h.extra_field_length as usize;
            let cl = h.file_comment_length as usize;
            let avail = n - (pos + 46);
            if nl > avail || el > avail - nl || cl > avail - nl - el {
                return Err(ZipError::TruncatedData);
            }
            let name = copy_range(&data, pos + 46, pos + 46 + nl);
            let entry = ZipEntry {
                filename: name,
                compression: h.compression,
                crc: h.crc,
                compressed_size: h.compressed_size,
                uncompressed_size: h.uncompressed_size,
                offset: h.lh_offset,
                flags: h.flags,
                mod_time: h.mod_time,
                mod_date: h.mod_date,
            };
            let ghost old_models = entries_model(entries@);
            proof {
                lemma_parse_step(
                    data@,
                    cd_off as int,
                    count as nat,
                    (count - i) as nat,
                    pos as int,
                    old_models,
                );
            }
            entries.push(entry);
            let new_pos = pos + 46 + nl + el + cl;
            proof {
                let em = entry_of_cdh(
                    spec_parse_cdh(data@, pos as int + 4),
                    data@.subrange(pos as int + 46, pos as int + 46 + nl as int),
                );
                assert(entry@ == em);
                assert(entries_model(entries@) =~= old_models + seq![em]);
            }
            pos = new_pos;
            i = i + 1;
        }
        proof {
            assert(spec_parse_entries(data@, pos as int, 0) == Ok::<Seq<EntryModel>, ZipError>(
                Seq::empty(),
            ));
            assert(entries_model(entries@) + Seq::<EntryModel>::empty() =~= entries_model(
                entries@,
            ));
        }
        Ok(ZipFileReader { data, entries, comment })
    }

    /// How many entries the archive holds.
    pub fn entry_count(&self) -> (r: usize)
        ensures
            r == self.entries@.len(),
    {
        self.entries.len()
    }

    /// The whole entry table, in file order.
    pub fn entries(&self) -> (r: &Vec<ZipEntry>)
        ensures
            r == self.entries,
    {
        &self.entries
    }

    /// The metadata of one entry, by its position in the table.
    pub fn entry_metadata(&self, index: usize) -> (r: Result<&ZipEntry, ZipError>)
        ensures
            index < self.entries@.len() ==> r == Ok::<&ZipEntry, ZipError>(
                &self.entries[index as int],
            ),
            index >= self.entries@.len() ==> r == Err::<&ZipEntry, ZipError>(
                ZipError::EntryIndexOutOfBounds,
            ),
    {
        if index < self.entries.len() {
            Ok(&self.entries[index])
        } else {
            Err(ZipError::EntryIndexOutOfBounds)
        }
    }

    /// The archive comment, empty when none was written.
    pub fn comment(&self) -> (r: &Vec<u8>)
        ensures
            r == self.comment,
    {
        &self.comment
    }
}

/// The forward scan for the data-descriptor signature that delimits a
/// streamed entry's payload, probing `q` first and moving up.
pub open spec fn spec_find_delim_from(data: Seq<u8>, q: int) -> Option<int>
    decreases data.len() - q,
{
    if q < 0 || q + 4 > data.len() {
        None
    } else if data.subrange(q, q + 4) == u32_le(crate::DATA_DESCRIPTOR_SIGNATURE) {
        Some(q)
    } else {
        spec_find_delim_from(data, q + 1)
    }
}

/// The compressed payload bytes of an entry, framed as the headers and
/// flags dictate: by the recorded compressed size when sizes are
/// authoritative, or by scanning for the trailing descriptor's signature
/// when the entry was streamed. The scan is the format's own ambiguity: a
/// payload that happens to contain the signature bytes is cut short there.
pub open spec fn spec_frame_entry(data: Seq<u8>, e: EntryModel) -> Result<Seq<u8>, ZipError> {
    let off = e.offset as int;
    if off + 30 > data.len() {
        Err(ZipError::TruncatedData)
    } else {
        let lfh = spec_parse_lfh(data, off + 4);
        let start = off + 30 + lfh.file_name_length + lfh.extra_field_length;
        if start > data.len() {
            Err(ZipError::TruncatedData)
        } else if e.flags.data_descriptor {
            match spec_find_delim_from(data, start) {
                Some(q) => Ok(data.subrange(start, q)),
                None => Ok(data.subrange(start, data.len() as int)),
            }
        } else if start + e.compressed_size > data.len() {
            Err(ZipError::TruncatedData)
        } else {
            Ok(data.subrange(start, start + e.compressed_size))
        }
    }
}

/// An independent, forward-only producer of one entry's decompressed
/// payload. Opening it copied and decoded everything it needs, so readers
/// over the same archive never share cursor state.
pub struct EntryReader {
    /// The decompressed payload.
    pub payload: Vec<u8>,
    /// How many payload bytes were already handed out.
    pub pos: usize,
}

impl EntryReader {
    /// The bytes not yet handed out.
    pub open spec fn remaining(&self) -> Seq<u8> {
        self.payload@.skip(self.pos as int)
    }

    /// The cursor never stands past the end of the payload.
    pub open spec fn wf(&self) -> bool {
        self.pos <= self.payload@.len()
    }

    /// Hands out the next `n` bytes, or all that are left when fewer
    /// remain.
    pub fn read(&mut self, n: usize) -> (r: Vec<u8>)
        requires
            old(self).wf(),
        ensures
            final(self).wf(),
            r@.len() == if n as int <= old(self).remaining().len() {
                n as int
            } else {
                old(self).remaining().len() as int
            },
            r@ == old(self).remaining().take(r@.len() as int),
            final(self).remaining() == old(self).remaining().skip(r@.len() as int),
            final(self).payload == old(self).payload,
    {
        let left = self.payload.len() - self.pos;
        let k = if n <= left {
            n
        } else {
            left
        };
        let r = copy_range(&self.payload, self.pos, self.pos + k);
        self.pos = self.pos + k;
        proof {
            assert(r@ =~= old(self).remaining().take(k as int));
            assert(self.remaining() =~= old(self).remaining().skip(k as int));
        }
        r
    }

    /// Hands out everything that is left.
    pub fn read_to_end(&mut self) -> (r: Vec<u8>)
        requires
            old(self).wf(),
        ensures
            final(self).wf(),
            r@ == old(self).remaining(),
            final(self).remaining() == Seq::<u8>::empty(),
            final(self).payload == old(self).payload,
    {
        let r = copy_range(&self.payload, self.pos, self.payload.len());
        self.pos = self.payload.len();
        proof {
            assert(r@ =~= old(self).remaining());
            assert(self.remaining() =~= Seq::<u8>::empty());
        }
        r
    }
}

impl ZipFileReader {
    /// Opens an entry at the provided index for reading: frames its
    /// compressed bytes as the flags dictate and runs them through the
    /// method's codec. Corrupt sizes or offsets surface as errors, never
    /// as garbage bytes.
    pub fn entry_reader(&self, index: usize) -> (r: Result<EntryReader, ZipError>)
        ensures
            index >= self.entries@.len() ==> r == Err::<EntryReader, ZipError>(
                ZipError::EntryIndexOutOfBounds,
            ),
            index < self.entries@.len() ==> (match spec_frame_entry(
                self.data@,
                self.entries@[index as int]@,
            ) {
                Err(err) => r == Err::<EntryReader, ZipError>(err),
                Ok(raw) => match spec_decompress(self.entries@[index as int]@.compression, raw) {
                    Ok(p) => r matches Ok(rd) && rd.payload@ == p && rd.pos == 0 && rd.wf(),
                    Err(err) => r == Err::<EntryReader, ZipError>(err),
                },
            }),
    {
        let n: usize = self.data.len();
        if index >= self.entries.len() {
            return Err(ZipError::EntryIndexOutOfBounds);
        }
        let entry = &self.entries[index];
        let off = entry.offset as usize;
        if n < 30 || off > n - 30 {
            return Err(ZipError::TruncatedData);
        }
        let lfh = parse_lfh(&self.data, off + 4);
        let nl = lfh.file_name_length as usize;
        let el = lfh.extra_field_length as usize;
        let avail = n - (off + 30);
        if nl > avail || el > avail - nl {
            return Err(ZipError::TruncatedData);
        }
        let start = off + 30 + nl + el;
        let raw: Vec<u8> = if entry.flags.data_descriptor {
            let stop = self.find_delim(start);
            copy_range(&self.data, start, stop)
        } else {
            let csize = entry.compressed_size as usize;
            if csize > n - start {
                return Err(ZipError::TruncatedData);
            }
            copy_range(&self.data, start, start + csize)
        };
        match decompress(entry.compression, raw.as_slice()) {
            Ok(payload) => Ok(EntryReader { payload, pos: 0 }),
            Err(e) => Err(e),
        }
    }

    /// Scans forward from `start` for the data-descriptor signature,
    /// stopping at the end of the store when it never occurs.
    fn find_delim(&self, start: usize) -> (r: usize)
        requires
            start <= self.data@.len(),
        ensures
            match spec_find_delim_from(self.data@, start as int) {
                Some(q) => r == q,
                None => r == self.data@.len(),
            },
            start <= r <= self.data@.len(),
    {
        let n: usize = self.data.len();
        if n < 4 || start > n - 4 {
            return n;
        }
        let mut q: usize = start;
        while q <= n - 4
            invariant
                start <= q <= n - 3,
                n == self.data@.len(),
                n >= 4,
                spec_find_delim_from(self.data@, start as int) == spec_find_delim_from(
                    self.data@,
                    q as int,
                ),
            decreases n - q,
        {
            if sig_at(&self.data, q, crate::DATA_DESCRIPTOR_SIGNATURE) {
                return q;
            }
            q = q + 1;
        }
        n
    }
}

} // verus!
