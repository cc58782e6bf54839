//! The three fixed-layout records of the container format and the
//! general-purpose flag bitfield: pure structure-to-bytes conversion in both
//! directions, with the decode-of-encode laws.

use vstd::prelude::*;

use crate::fields::{
    lemma_u16_round_trip, lemma_u32_round_trip, push_u16, push_u32, read_u16, read_u32, u16_le,
    u16_of, u32_le, u32_of,
};

verus! {

/// The bits of the general-purpose flag word that this codec interprets.
#[derive(Clone, Copy, Debug, PartialEq, Eq, Structural)]
pub struct GeneralPurposeFlag {
    /// Bit 0: the entry is encrypted (never set by this writer).
    pub encrypted: bool,
    /// Bit 3: sizes and checksum live in a trailing data-descriptor record,
    /// and the local header holds placeholders.
    pub data_descriptor: bool,
    /// Bit 11: the filename is UTF-8 beyond ASCII.
    pub filename_unicode: bool,
}

/// The flag word holding exactly the three interpreted bits.
pub open spec fn flags_value(f: GeneralPurposeFlag) -> u16 {
    ((if f.encrypted {
        1int
    } else {
        0int
    }) + (if f.data_descriptor {
        8int
    } else {
        0int
    }) + (if f.filename_unicode {
        2048int
    } else {
        0int
    })) as u16
}

/// The three interpreted bits of a flag word; the other bits are dropped.
pub open spec fn flags_of(v: u16) -> GeneralPurposeFlag {
    GeneralPurposeFlag {
        encrypted: v as int % 2 == 1,
        data_descriptor: (v as int / 8) % 2 == 1,
        filename_unicode: (v as int / 2048) % 2 == 1,
    }
}

/// Decoding a flag word written by this codec restores the three bits.
pub proof fn lemma_flags_round_trip(f: GeneralPurposeFlag)
    ensures
        flags_of(flags_value(f)) == f,
{
}

/// Encodes the flag bitfield into its 16-bit word.
pub fn encode_flags(f: &GeneralPurposeFlag) -> (r: u16)
    ensures
        r == flags_value(*f),
{
    let mut v: u16 = 0;
    if f.encrypted {
        v = v + 1;
    }
    if f.data_descriptor {
        v = v + 8;
    }
    if f.filename_unicode {
        v = v + 2048;
    }
    v
}

/// Decodes the three interpreted bits of a flag word.
pub fn decode_flags(v: u16) -> (r: GeneralPurposeFlag)
    ensures
        r == flags_of(v),
{
    GeneralPurposeFlag {
        encrypted: v % 2 == 1,
        data_descriptor: (v / 8) % 2 == 1,
        filename_unicode: (v / 2048) % 2 == 1,
    }
}

/// The fixed part of a local file header, without its leading signature.
/// The filename and extra-field bytes follow it, with their lengths
/// declared here.
#[derive(Clone, Copy, Debug, PartialEq, Eq, Structural)]
pub struct LocalFileHeader {
    pub version: u16,
    pub flags: GeneralPurposeFlag,
    pub compression: u16,
    pub mod_time: u16,
    pub mod_date: u16,
    pub crc: u32,
    pub compressed_size: u32,
    pub uncompressed_size: u32,
    pub file_name_length: u16,
    pub extra_field_length: u16,
}

/// The 26 bytes of a local file header body, in field order.
#[verifier::opaque]
pub open spec fn lfh_bytes(h: LocalFileHeader) -> Seq<u8> {
    u16_le(h.version) + u16_le(flags_value(h.flags)) + u16_le(h.compression) + u16_le(h.mod_time)
        + u16_le(h.mod_date) + u32_le(h.crc) + u32_le(h.compressed_size) + u32_le(
        h.uncompressed_size,
    ) + u16_le(h.file_name_length) + u16_le(h.extra_field_length)
}

/// A local file header body is 26 bytes long.
pub proof fn lemma_lfh_bytes_len(h: LocalFileHeader)
    ensures
        lfh_bytes(h).len() == 26,
{
    reveal(lfh_bytes);
}

/// The header read from the 26 bytes at `pos`.
pub open spec fn spec_parse_lfh(data: Seq<u8>, pos: int) -> LocalFileHeader
    recommends
        0 <= pos,
        pos + 26 <= data.len(),
{
    LocalFileHeader {
        version: u16_of(data.subrange(pos, pos + 2)),
        flags: flags_of(u16_of(data.subrange(pos + 2, pos + 4))),
        compression: u16_of(data.subrange(pos + 4, pos + 6)),
        mod_time: u16_of(data.subrange(pos + 6, pos + 8)),
        mod_date: u16_of(data.subrange(pos + 8, pos + 10)),
        crc: u32_of(data.subrange(pos + 10, pos + 14)),
        compressed_size: u32_of(data.subrange(pos + 14, pos + 18)),
        uncompressed_size: u32_of(data.subrange(pos + 18, pos + 22)),
        file_name_length: u16_of(data.subrange(pos + 22, pos + 24)),
        extra_field_length: u16_of(data.subrange(pos + 24, pos + 26)),
    }
}

/// Appends the 26 header-body bytes.
pub fn push_lfh(out: &mut Vec<u8>, h: &LocalFileHeader)
    ensures
        final(out)@ == old(out)@ + lfh_bytes(*h),
{
    push_u16(out, h.version);
    push_u16(out, encode_flags(&h.flags));
    push_u16(out, h.compression);
    push_u16(out, h.mod_time);
    push_u16(out, h.mod_date);
    push_u32(out, h.crc);
    push_u32(out, h.compressed_size);
    push_u32(out, h.uncompressed_size);
    push_u16(out, h.file_name_length);
    push_u16(out, h.extra_field_length);
    proof {
        reveal(lfh_bytes);
        assert(out@ =~= old(out)@ + lfh_bytes(*h));
    }
}

/// Reads the header whose 26 body bytes sit at `pos`.
pub fn parse_lfh(data: &Vec<u8>, pos: usize) -> (r: LocalFileHeader)
    requires
        pos + 26 <= data@.len(),
    ensures
        r == spec_parse_lfh(data@, pos as int),
{
    let _n: usize = data.len();
    LocalFileHeader {
        version: read_u16(data, pos),
        flags: decode_flags(read_u16(data, pos + 2)),
        compression: read_u16(data, pos + 4),
        mod_time: read_u16(data, pos + 6),
        mod_date: read_u16(data, pos + 8),
        crc: read_u32(data, pos + 10),
        compressed_size: read_u32(data, pos + 14),
        uncompressed_size: read_u32(data, pos + 18),
        file_name_length: read_u16(data, pos + 22),
        extra_field_length: read_u16(data, pos + 24),
    }
}

/// Reading the 26 bytes this codec wrote restores the header exactly.
pub proof fn lemma_parse_lfh_of_bytes(data: Seq<u8>, pos: int, h: LocalFileHeader)
    requires
        0 <= pos,
        pos + 26 <= data.len(),
        data.subrange(pos, pos + 26) == lfh_bytes(h),
    ensures
        spec_parse_lfh(data, pos) == h,
{
    reveal(lfh_bytes);
    let f0 = u16_le(h.version);
    let f1 = u16_le(flags_value(h.flags));
    let f2 = u16_le(h.compression);
    let f3 = u16_le(h.mod_time);
    let f4 = u16_le(h.mod_date);
    let f5 = u32_le(h.crc);
    let f6 = u32_le(h.compressed_size);
    let f7 = u32_le(h.uncompressed_size);
    let f8 = u16_le(h.file_name_length);
    let f9 = u16_le(h.extra_field_length);
    crate::fields::lemma_peel(data, pos, f0 + f1 + f2 + f3 + f4 + f5 + f6 + f7 + f8, f9);
    crate::fields::lemma_peel(data, pos, f0 + f1 + f2 + f3 + f4 + f5 + f6 + f7, f8);
    crate::fields::lemma_peel(data, pos, f0 + f1 + f2 + f3 + f4 + f5 + f6, f7);
    crate::fields::lemma_peel(data, pos, f0 + f1 + f2 + f3 + f4 + f5, f6);
    crate::fields::lemma_peel(data, pos, f0 + f1 + f2 + f3 + f4, f5);
    crate::fields::lemma_peel(data, pos, f0 + f1 + f2 + f3, f4);
    crate::fields::lemma_peel(data, pos, f0 + f1 + f2, f3);
    crate::fields::lemma_peel(data, pos, f0 + f1, f2);
    crate::fields::lemma_peel(data, pos, f0, f1);
    lemma_u16_round_trip(h.version);
    lemma_u16_round_trip(flags_value(h.flags));
    lemma_flags_round_trip(h.flags);
    lemma_u16_round_trip(h.compression);
    lemma_u16_round_trip(h.mod_time);
    lemma_u16_round_trip(h.mod_date);
    lemma_u32_round_trip(h.crc);
    lemma_u32_round_trip(h.compressed_size);
    lemma_u32_round_trip(h.uncompressed_size);
    lemma_u16_round_trip(h.file_name_length);
    lemma_u16_round_trip(h.extra_field_length);
}

/// The fixed part of a central directory header, without its leading
/// signature. The filename, extra-field and comment bytes follow it.
#[derive(Clone, Copy, Debug, PartialEq, Eq, Structural)]
pub struct CentralDirectoryHeader {
    pub v_made_by: u16,
    pub v_needed: u16,
    pub flags: GeneralPurposeFlag,
    pub compression: u16,
    pub mod_time: u16,
    pub mod_date: u16,
    pub crc: u32,
    pub compressed_size: u32,
    pub uncompressed_size: u32,
    pub file_name_length: u16,
    pub extra_field_length: u16,
    pub file_comment_length: u16,
    pub disk_start: u16,
    pub inter_attr: u16,
    pub exter_attr: u32,
    pub lh_offset: u32,
}

/// The 42 bytes of a central directory header body, in field order.
#[verifier::opaque]
pub open spec fn cdh_bytes(h: CentralDirectoryHeader) -> Seq<u8> {
    u16_le(h.v_made_by) + u16_le(h.v_needed) + u16_le(flags_value(h.flags)) + u16_le(h.compression)
        + u16_le(h.mod_time) + u16_le(h.mod_date) + u32_le(h.crc) + u32_le(h.compressed_size)
        + u32_le(h.uncompressed_size) + u16_le(h.file_name_length) + u16_le(h.extra_field_length)
        + u16_le(h.file_comment_length) + u16_le(h.disk_start) + u16_le(h.inter_attr) + u32_le(
        h.exter_attr,
    ) + u32_le(h.lh_offset)
}

/// A central directory header body is 42 bytes long.
pub proof fn lemma_cdh_bytes_len(h: CentralDirectoryHeader)
    ensures
        cdh_bytes(h).len() == 42,
{
    reveal(cdh_bytes);
}

/// The header read from the 42 bytes at `pos`.
pub open spec fn spec_parse_cdh(data: Seq<u8>, pos: int) -> CentralDirectoryHeader
    recommends
        0 <= pos,
        pos + 42 <= data.len(),
{
    CentralDirectoryHeader {
        v_made_by: u16_of(data.subrange(pos, pos + 2)),
        v_needed: u16_of(data.subrange(pos + 2, pos + 4)),
        flags: flags_of(u16_of(data.subrange(pos + 4, pos + 6))),
        compression: u16_of(data.subrange(pos + 6, pos + 8)),
        mod_time: u16_of(data.subrange(pos + 8, pos + 10)),
        mod_date: u16_of(data.subrange(pos + 10, pos + 12)),
        crc: u32_of(data.subrange(pos + 12, pos + 16)),
        compressed_size: u32_of(data.subrange(pos + 16, pos + 20)),
        uncompressed_size: u32_of(data.subrange(pos + 20, pos + 24)),
        file_name_length: u16_of(data.subrange(pos + 24, pos + 26)),
        extra_field_length: u16_of(data.subrange(pos + 26, pos + 28)),
        file_comment_length: u16_of(data.subrange(pos + 28, pos + 30)),
        disk_start: u16_of(data.subrange(pos + 30, pos + 32)),
        inter_attr: u16_of(data.subrange(pos + 32, pos + 34)),
        exter_attr: u32_of(data.subrange(pos + 34, pos + 38)),
        lh_offset: u32_of(data.subrange(pos + 38, pos + 42)),
    }
}

/// Appends the 42 header-body bytes.
pub fn push_cdh(out: &mut Vec<u8>, h: &CentralDirectoryHeader)
    ensures
        final(out)@ == old(out)@ + cdh_bytes(*h),
{
    push_u16(out, h.v_made_by);
    push_u16(out, h.v_needed);
    push_u16(out, encode_flags(&h.flags));
    push_u16(out, h.compression);
    push_u16(out, h.mod_time);
    push_u16(out, h.mod_date);
    push_u32(out, h.crc);
    push_u32(out, h.compressed_size);
    push_u32(out, h.uncompressed_size);
    push_u16(out, h.file_name_length);
    push_u16(out, h.extra_field_length);
    push_u16(out, h.file_comment_length);
    push_u16(out, h.disk_start);
    push_u16(out, h.inter_attr);
    push_u32(out, h.exter_attr);
    push_u32(out, h.lh_offset);
    proof {
        reveal(cdh_bytes);
        assert(out@ =~= old(out)@ + cdh_bytes(*h));
    }
}

/// Reads the header whose 42 body bytes sit at `pos`.
pub fn parse_cdh(data: &Vec<u8>, pos: usize) -> (r: CentralDirectoryHeader)
    requires
        pos + 42 <= data@.len(),
    ensures
        r == spec_parse_cdh(data@, pos as int),
{
    let _n: usize = data.len();
    CentralDirectoryHeader {
        v_made_by: read_u16(data, pos),
        v_needed: read_u16(data, pos + 2),
        flags: decode_flags(read_u16(data, pos + 4)),
        compression: read_u16(data, pos + 6),
        mod_time: read_u16(data, pos + 8),
        mod_date: read_u16(data, pos + 10),
        crc: read_u32(data, pos + 12),
        compressed_size: read_u32(data, pos + 16),
        uncompressed_size: read_u32(data, pos + 20),
        file_name_length: read_u16(data, pos + 24),
        extra_field_length: read_u16(data, pos + 26),
        file_comment_length: read_u16(data, pos + 28),
        disk_start: read_u16(data, pos + 30),
        inter_attr: read_u16(data, pos + 32),
        exter_attr: read_u32(data, pos + 34),
        lh_offset: read_u32(data, pos + 38),
    }
}

/// Reading the 42 bytes this codec wrote restores the header exactly.
pub proof fn lemma_parse_cdh_of_bytes(data: Seq<u8>, pos: int, h: CentralDirectoryHeader)
    requires
        0 <= pos,
        pos + 42 <= data.len(),
        data.subrange(pos, pos + 42) == cdh_bytes(h),
    ensures
        spec_parse_cdh(data, pos) == h,
{
    reveal(cdh_bytes);
    let f0 = u16_le(h.v_made_by);
    let f1 = u16_le(h.v_needed);
    let f2 = u16_le(flags_value(h.flags));
    let f3 = u16_le(h.compression);
    let f4 = u16_le(h.mod_time);
    let f5 = u16_le(h.mod_date);
    let f6 = u32_le(h.crc);
    let f7 = u32_le(h.compressed_size);
    let f8 = u32_le(h.uncompressed_size);
    let f9 = u16_le(h.file_name_length);
    let f10 = u16_le(h.extra_field_length);
    let f11 = u16_le(h.file_comment_length);
    let f12 = u16_le(h.disk_start);
    let f13 = u16_le(h.inter_attr);
    let f14 = u32_le(h.exter_attr);
    let f15 = u32_le(h.lh_offset);
    crate::fields::lemma_peel(
        data,
        pos,
        f0 + f1 + f2 + f3 + f4 + f5 + f6 + f7 + f8 + f9 + f10 + f11 + f12 + f13 + f14,
        f15,
    );
    crate::fields::lemma_peel(
        data,
        pos,
        f0 + f1 + f2 + f3 + f4 + f5 + f6 + f7 + f8 + f9 + f10 + f11 + f12 + f13,
        f14,
    );
    crate::fields::lemma_peel(
        data,
        pos,
        f0 + f1 + f2 + f3 + f4 + f5 + f6 + f7 + f8 + f9 + f10 + f11 + f12,
        f13,
    );
    crate::fields::lemma_peel(
        data,
        pos,
        f0 + f1 + f2 + f3 + f4 + f5 + f6 + f7 + f8 + f9 + f10 + f11,
        f12,
    );
    crate::fields::lemma_peel(
        data,
        pos,
        f0 + f1 + f2 + f3 + f4 + f5 + f6 + f7 + f8 + f9 + f10,
        f11,
    );
    crate::fields::lemma_peel(data, pos, f0 + f1 + f2 + f3 + f4 + f5 + f6 + f7 + f8 + f9, f10);
    crate::fields::lemma_peel(data, pos, f0 + f1 + f2 + f3 + f4 + f5 + f6 + f7 + f8, f9);
    crate::fields::lemma_peel(data, pos, f0 + f1 + f2 + f3 + f4 + f5 + f6 + f7, f8);
    crate::fields::lemma_peel(data, pos, f0 + f1 + f2 + f3 + f4 + f5 + f6, f7);
    crate::fields::lemma_peel(data, pos, f0 + f1 + f2 + f3 + f4 + f5, f6);
    crate::fields::lemma_peel(data, pos, f0 + f1 + f2 + f3 + f4, f5);
    crate::fields::lemma_peel(data, pos, f0 + f1 + f2 + f3, f4);
    crate::fields::lemma_peel(data, pos, f0 + f1 + f2, f3);
    crate::fields::lemma_peel(data, pos, f0 + f1, f2);
    crate::fields::lemma_peel(data, pos, f0, f1);
    lemma_u16_round_trip(h.v_made_by);
    lemma_u16_round_trip(h.v_needed);
    lemma_u16_round_trip(flags_value(h.flags));
    lemma_flags_round_trip(h.flags);
    lemma_u16_round_trip(h.compression);
    lemma_u16_round_trip(h.mod_time);
    lemma_u16_round_trip(h.mod_date);
    lemma_u32_round_trip(h.crc);
    lemma_u32_round_trip(h.compressed_size);
    lemma_u32_round_trip(h.uncompressed_size);
    lemma_u16_round_trip(h.file_name_length);
    lemma_u16_round_trip(h.extra_field_length);
    lemma_u16_round_trip(h.file_comment_length);
    lemma_u16_round_trip(h.disk_start);
    lemma_u16_round_trip(h.inter_attr);
    lemma_u32_round_trip(h.exter_attr);
    lemma_u32_round_trip(h.lh_offset);
}

/// The fixed part of the end-of-central-directory record, without its
/// leading signature. The archive comment follows it.
#[derive(Clone, Copy, Debug, PartialEq, Eq, Structural)]
pub struct EndOfCentralDirectoryHeader {
    pub disk_num: u16,
    pub start_cent_dir_disk: u16,
    pub num_of_entries_disk: u16,
    pub num_of_entries: u16,
    pub size_cent_dir: u32,
    pub cent_dir_offset: u32,
    pub file_comm_length: u16,
}

/// The 18 bytes of an end-of-central-directory record body, in field order.
#[verifier::opaque]
pub open spec fn eocd_bytes(h: EndOfCentralDirectoryHeader) -> Seq<u8> {
    u16_le(h.disk_num) + u16_le(h.start_cent_dir_disk) + u16_le(h.num_of_entries_disk) + u16_le(
        h.num_of_entries,
    ) + u32_le(h.size_cent_dir) + u32_le(h.cent_dir_offset) + u16_le(h.file_comm_length)
}

/// An end-of-central-directory record body is 18 bytes long.
pub proof fn lemma_eocd_bytes_len(h: EndOfCentralDirectoryHeader)
    ensures
        eocd_bytes(h).len() == 18,
{
    reveal(eocd_bytes);
}

/// The record read from the 18 bytes at `pos`.
pub open spec fn spec_parse_eocd(data: Seq<u8>, pos: int) -> EndOfCentralDirectoryHeader
    recommends
        0 <= pos,
        pos + 18 <= data.len(),
{
    EndOfCentralDirectoryHeader {
        disk_num: u16_of(data.subrange(pos, pos + 2)),
        start_cent_dir_disk: u16_of(data.subrange(pos + 2, pos + 4)),
        num_of_entries_disk: u16_of(data.subrange(pos + 4, pos + 6)),
        num_of_entries: u16_of(data.subrange(pos + 6, pos + 8)),
        size_cent_dir: u32_of(data.subrange(pos + 8, pos + 12)),
        cent_dir_offset: u32_of(data.subrange(pos + 12, pos + 16)),
        file_comm_length: u16_of(data.subrange(pos + 16, pos + 18)),
    }
}

/// Appends the 18 record-body bytes.
pub fn push_eocd(out: &mut Vec<u8>, h: &EndOfCentralDirectoryHeader)
    ensures
        final(out)@ == old(out)@ + eocd_bytes(*h),
{
    push_u16(out, h.disk_num);
    push_u16(out, h.start_cent_dir_disk);
    push_u16(out, h.num_of_entries_disk);
    push_u16(out, h.num_of_entries);
    push_u32(out, h.size_cent_dir);
    push_u32(out, h.cent_dir_offset);
    push_u16(out, h.file_comm_length);
    proof {
        reveal(eocd_bytes);
        assert(out@ =~= old(out)@ + eocd_bytes(*h));
    }
}

/// Reads the record whose 18 body bytes sit at `pos`.
pub fn parse_eocd(data: &Vec<u8>, pos: usize) -> (r: EndOfCentralDirectoryHeader)
    requires
        pos + 18 <= data@.len(),
    ensures
        r == spec_parse_eocd(data@, pos as int),
{
    let _n: usize = data.len();
    EndOfCentralDirectoryHeader {
        disk_num: read_u16(data, pos),
        start_cent_dir_disk: read_u16(data, pos + 2),
        num_of_entries_disk: read_u16(data, pos + 4),
        num_of_entries: read_u16(data, pos + 6),
        size_cent_dir: read_u32(data, pos + 8),
        cent_dir_offset: read_u32(data, pos + 12),
        file_comm_length: read_u16(data, pos + 16),
    }
}

/// Reading the 18 bytes this codec wrote restores the record exactly.
pub proof fn lemma_parse_eocd_of_bytes(data: Seq<u8>, pos: int, h: EndOfCentralDirectoryHeader)
    requires
        0 <= pos,
        pos + 18 <= data.len(),
        data.subrange(pos, pos + 18) == eocd_bytes(h),
    ensures
        spec_parse_eocd(data, pos) == h,
{
    reveal(eocd_bytes);
    let f0 = u16_le(h.disk_num);
    let f1 = u16_le(h.start_cent_dir_disk);
    let f2 = u16_le(h.num_of_entries_disk);
    let f3 = u16_le(h.num_of_entries);
    let f4 = u32_le(h.size_cent_dir);
    let f5 = u32_le(h.cent_dir_offset);
    let f6 = u16_le(h.file_comm_length);
    crate::fields::lemma_peel(data, pos, f0 + f1 + f2 + f3 + f4 + f5, f6);
    crate::fields::lemma_peel(data, pos, f0 + f1 + f2 + f3 + f4, f5);
    crate::fields::lemma_peel(data, pos, f0 + f1 + f2 + f3, f4);
    crate::fields::lemma_peel(data, pos, f0 + f1 + f2, f3);
    crate::fields::lemma_peel(data, pos, f0 + f1, f2);
    crate::fields::lemma_peel(data, pos, f0, f1);
    lemma_u16_round_trip(h.disk_num);
    lemma_u16_round_trip(h.start_cent_dir_disk);
    lemma_u16_round_trip(h.num_of_entries_disk);
    lemma_u16_round_trip(h.num_of_entries);
    lemma_u32_round_trip(h.size_cent_dir);
    lemma_u32_round_trip(h.cent_dir_offset);
    lemma_u16_round_trip(h.file_comm_length);
}

} // verus!
