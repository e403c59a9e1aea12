//! The decompression capability the decoders are parameterized over, and
//! the built-in brotli and zlib implementations of it.

use std::io::Read;

use vstd::prelude::*;

use crate::error::WuffErr;

verus! {

/// What brotli decoding yields on the given compressed bytes: the decoded
/// stream, or `None` when the stream is rejected.  Decoding is fully
/// specified by the format, so this is a function of the bytes alone.
pub uninterp spec fn brotli_inflate(compressed: Seq<u8>) -> Option<Seq<u8>>;

/// What zlib decoding yields on the given compressed bytes.
pub uninterp spec fn zlib_inflate(compressed: Seq<u8>) -> Option<Seq<u8>>;

/// A decompression capability: given compressed bytes and the expected
/// decompressed size as a hint, return the decompressed bytes or fail.
/// Injected so tests can supply deterministic codecs.
pub trait Decompressor {
    fn decompress(&mut self, data: &[u8], size_hint: usize) -> Result<Vec<u8>, WuffErr>;
}

/// Relies on brotli_decompressor::BrotliDecompress, whose output is a
/// function of the compressed bytes alone; the hint only presizes the
/// output buffer.
#[verifier::external_body]
fn brotli_decompress(data: &[u8], size_hint: usize) -> (r: Result<Vec<u8>, WuffErr>)
    ensures
        match r {
            Ok(v) => brotli_inflate(data@) == Some(v@),
            Err(_) => brotli_inflate(data@) is None,
        },
{
    let mut output: Vec<u8> = Vec::with_capacity(size_hint);
    let mut input: &[u8] = data;
    match brotli_decompressor::BrotliDecompress(&mut input, &mut output) {
        Ok(()) => Ok(output),
        Err(_) => Err(WuffErr::GenericError),
    }
}

/// Relies on flate2::read::ZlibDecoder (its std::io::Read implementation),
/// whose output is a function of the compressed bytes alone; the hint only
/// presizes the output buffer.
#[verifier::external_body]
fn zlib_decompress(data: &[u8], size_hint: usize) -> (r: Result<Vec<u8>, WuffErr>)
    ensures
        match r {
            Ok(v) => zlib_inflate(data@) == Some(v@),
            Err(_) => zlib_inflate(data@) is None,
        },
{
    let mut output: Vec<u8> = Vec::with_capacity(size_hint);
    let mut decoder = flate2::read::ZlibDecoder::new(data);
    match decoder.read_to_end(&mut output) {
        Ok(_) => Ok(output),
        Err(_) => Err(WuffErr::GenericError),
    }
}

/// The built-in brotli capability behind `decompress_woff2`.
pub struct BrotliCodec;

impl Decompressor for BrotliCodec {
    fn decompress(&mut self, data: &[u8], size_hint: usize) -> Result<Vec<u8>, WuffErr> {
        brotli_decompress(data, size_hint)
    }
}

/// The built-in zlib capability behind `decompress_woff1`.
pub struct ZlibCodec;

impl Decompressor for ZlibCodec {
    fn decompress(&mut self, data: &[u8], size_hint: usize) -> Result<Vec<u8>, WuffErr> {
        zlib_decompress(data, size_hint)
    }
}

} // verus!
