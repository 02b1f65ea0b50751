//! The zlib compressor of whole buffers.

use crate::error::Error;
use crate::filters::compressors::Compressor;
use crate::filters::gzip::{deflate_zlib, zlib_deflated};
use crate::filters::FilterType;
use vstd::prelude::*;

verus! {

/// The bytes that inflating the whole zlib stream `input` yields, or
/// nothing where the stream is damaged or ends early.
pub uninterp spec fn zlib_inflated_whole(input: Seq<u8>) -> Option<Seq<u8>>;

/// `miniz_oxide::inflate::decompress_to_vec_zlib`: the bytes that the zlib
/// stream `input` holds, named `zlib_inflated_whole`. On failure it returns
/// an error, here `None`.
#[verifier::external_body]
fn inflate_zlib_whole(input: &[u8]) -> (output: Option<Vec<u8>>)
    ensures
        match output {
            Some(bytes) => zlib_inflated_whole(input@) == Some(bytes@),
            None => zlib_inflated_whole(input@) is None,
        },
{
    miniz_oxide::inflate::decompress_to_vec_zlib(input).ok()
}

/// The zlib compressor of whole buffers.
pub struct GZIPCompressor {
    pub level: u8,
}

impl GZIPCompressor {
    /// A compressor that works at `level`.
    pub fn new(level: u8) -> (compressor: GZIPCompressor)
        ensures
            compressor.level == level,
    {
        GZIPCompressor { level }
    }
}

impl Default for GZIPCompressor {
    /// A compressor that works at level 6.
    fn default() -> (compressor: GZIPCompressor)
        ensures
            compressor.level == 6,
    {
        GZIPCompressor { level: 6 }
    }
}

impl Compressor for GZIPCompressor {
    open spec fn compressed(&self, input: Seq<u8>) -> Seq<u8> {
        zlib_deflated(input, self.level)
    }

    open spec fn decompressed(&self, input: Seq<u8>) -> Option<Seq<u8>> {
        zlib_inflated_whole(input)
    }

    fn compress(&self, input: &[u8]) -> (output: Vec<u8>) {
        deflate_zlib(input, self.level)
    }

    fn decompress(&self, input: &[u8]) -> (r: Result<Vec<u8>, Error>)
        ensures
            r matches Err(e) ==> e == (Error::FilterFailure {
                kind: FilterType::GZip,
                chunk_index: 0,
            }),
    {
        match inflate_zlib_whole(input) {
            Some(output) => Ok(output),
            None => Err(Error::FilterFailure { kind: FilterType::GZip, chunk_index: 0 }),
        }
    }
}

} // verus!
