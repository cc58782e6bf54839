//! A ZIP container codec: parses the central directory of an archive held in
//! memory and frames individual entries for decompression, and builds new
//! archives incrementally, both from whole payloads and from streamed chunks
//! of unknown total size (finished by a trailing data-descriptor record).

pub mod checksum;
pub mod compress;
pub mod fields;
pub mod headers;
pub mod laws;
pub mod read;
pub mod timestamp;
pub mod write;

use vstd::prelude::*;

verus! {

/// Magic number that opens every local file header.
pub const LOCAL_FILE_HEADER_SIGNATURE: u32 = 0x04034b50;

/// Magic number that opens the trailing data-descriptor record of a
/// streamed entry.
pub const DATA_DESCRIPTOR_SIGNATURE: u32 = 0x08074b50;

/// Magic number that opens every central directory file header.
pub const CENTRAL_DIRECTORY_FILE_HEADER_SIGNATURE: u32 = 0x02014b50;

/// Magic number that opens the end-of-central-directory record.
pub const END_OF_CENTRAL_DIRECTORY_SIGNATURE: u32 = 0x06054b50;

/// Everything that can go wrong while reading or writing an archive.
#[derive(Clone, Copy, Debug, PartialEq, Eq, Structural)]
pub enum ZipError {
    /// An entry index at or past `entry_count`.
    EntryIndexOutOfBounds,
    /// A required signature was never found.
    MalformedArchive,
    /// A declared length points past the end of the available bytes.
    TruncatedData,
    /// Fewer central directory headers are decodable than the end record
    /// declares.
    EntryCountMismatch,
    /// A compression-method tag this codec does not implement.
    UnsupportedCompressionMethod,
    /// A compressed payload that the method's codec rejects.
    BadCompressedData,
    /// A size or offset that does not fit the 32-bit (or 16-bit) fields of
    /// the format.
    SizeLimitExceeded,
    /// An operation on a writer whose entry lease was already finished.
    InvalidWriterState,
    /// A failure of the underlying byte store, reported by the caller that
    /// owns the store.
    Io,
}

} // verus!
