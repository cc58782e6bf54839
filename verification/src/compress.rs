//! The method-tagged compression adapter. Storing is the identity and is
//! implemented here; the deflate transform is miniz_oxide's, reached
//! through trusted wrappers whose results are named.

use vstd::prelude::*;

use crate::fields::slice_to_vec;
use crate::ZipError;

verus! {

/// The compression methods this codec implements.
#[derive(Clone, Copy, Debug, PartialEq, Eq, Structural)]
pub enum Compression {
    /// Method 0: the payload is stored as it is.
    Stored,
    /// Method 8: the payload is deflate-encoded.
    Deflate,
}

/// The method tag a compression method is recorded as in the headers.
pub open spec fn method_tag(c: Compression) -> u16 {
    match c {
        Compression::Stored => 0,
        Compression::Deflate => 8,
    }
}

impl Compression {
    /// The method tag recorded in the headers.
    pub fn to_u16(&self) -> (r: u16)
        ensures
            r == method_tag(*self),
    {
        match self {
            Compression::Stored => 0,
            Compression::Deflate => 8,
        }
    }

    /// The method a header tag selects; unknown tags are rejected.
    pub fn from_u16(tag: u16) -> (r: Result<Compression, ZipError>)
        ensures
            tag == 0 ==> r == Ok::<Compression, ZipError>(Compression::Stored),
            tag == 8 ==> r == Ok::<Compression, ZipError>(Compression::Deflate),
            tag != 0 && tag != 8 ==> r == Err::<Compression, ZipError>(
                ZipError::UnsupportedCompressionMethod,
            ),
    {
        if tag == 0 {
            Ok(Compression::Stored)
        } else if tag == 8 {
            Ok(Compression::Deflate)
        } else {
            Err(ZipError::UnsupportedCompressionMethod)
        }
    }
}

/// The deflate encoding of a byte sequence, as miniz_oxide's whole-buffer
/// compressor produces it at this codec's fixed level.
pub uninterp spec fn deflate_of(s: Seq<u8>) -> Seq<u8>;

/// What miniz_oxide's whole-buffer inflater makes of a byte sequence: the
/// decoded bytes, or nothing when the bytes are not a deflate stream.
pub uninterp spec fn inflate_of(s: Seq<u8>) -> Option<Seq<u8>>;

/// Relies on miniz_oxide::deflate::compress_to_vec: the output depends on
/// the input bytes and the fixed level alone, and
/// miniz_oxide::inflate::decompress_to_vec decodes it back to the input,
/// the two being a matching whole-buffer pair.
#[verifier::external_body]
fn deflate_compress(data: &[u8]) -> (r: Vec<u8>)
    ensures
        r@ == deflate_of(data@),
        inflate_of(r@) == Some(data@),
{
    miniz_oxide::deflate::compress_to_vec(data, 6)
}

/// Relies on miniz_oxide::inflate::decompress_to_vec: the result depends on
/// the input bytes alone, and failure reports no decoded bytes.
#[verifier::external_body]
fn deflate_decompress(data: &[u8]) -> (r: Result<Vec<u8>, ZipError>)
    ensures
        match r {
            Ok(v) => inflate_of(data@) == Some(v@),
            Err(e) => inflate_of(data@) is None && e == ZipError::BadCompressedData,
        },
{
    match miniz_oxide::inflate::decompress_to_vec(data) {
        Ok(v) => Ok(v),
        Err(_) => Err(ZipError::BadCompressedData),
    }
}

/// The compressed form of a payload under a method.
pub open spec fn compressed_of(c: Compression, s: Seq<u8>) -> Seq<u8> {
    match c {
        Compression::Stored => s,
        Compression::Deflate => deflate_of(s),
    }
}

/// What decompressing a framed run of bytes under a method tag yields.
pub open spec fn spec_decompress(tag: u16, s: Seq<u8>) -> Result<Seq<u8>, ZipError> {
    if tag == 0 {
        Ok(s)
    } else if tag == 8 {
        match inflate_of(s) {
            Some(v) => Ok(v),
            None => Err(ZipError::BadCompressedData),
        }
    } else {
        Err(ZipError::UnsupportedCompressionMethod)
    }
}

/// Runs a whole payload through the codec a method selects, and reports
/// that decompressing the result under the method's tag restores the
/// payload.
pub fn compress(c: Compression, data: &[u8]) -> (r: Vec<u8>)
    ensures
        r@ == compressed_of(c, data@),
        spec_decompress(method_tag(c), r@) == Ok::<Seq<u8>, ZipError>(data@),
{
    match c {
        Compression::Stored => slice_to_vec(data),
        Compression::Deflate => deflate_compress(data),
    }
}

/// Undoes the codec a method tag selects, on a whole framed payload.
pub fn decompress(tag: u16, data: &[u8]) -> (r: Result<Vec<u8>, ZipError>)
    ensures
        match r {
            Ok(v) => spec_decompress(tag, data@) == Ok::<Seq<u8>, ZipError>(v@),
            Err(e) => spec_decompress(tag, data@) == Err::<Seq<u8>, ZipError>(e),
        },
{
    if tag == 0 {
        Ok(slice_to_vec(data))
    } else if tag == 8 {
        deflate_decompress(data)
    } else {
        Err(ZipError::UnsupportedCompressionMethod)
    }
}

} // verus!
