//! The filter that compresses with zlib.

use crate::error::Error;
use crate::filters::compression;
use crate::filters::compression::Decompressor;
use crate::filters::{Filter, FilterType};
use crate::storage::filter::FilterConfig;
use crate::storage::tile::{Chunk, ChunkView};
use crate::storage::wire;
use vstd::prelude::*;

verus! {

/// The bytes that inflating the zlib stream `input` yields where room for
/// `capacity` bytes is given, or nothing where the stream is damaged, ends
/// early or yields more.
pub uninterp spec fn zlib_inflated(input: Seq<u8>, capacity: nat) -> Option<Seq<u8>>;

/// The zlib stream that deflating `input` at `level` yields.
pub uninterp spec fn zlib_deflated(input: Seq<u8>, level: u8) -> Seq<u8>;

/// `miniz_oxide::inflate::decompress_slice_iter_to_slice`, on the one slice
/// `input`, with a zlib header expected and the checksum tested. It writes
/// from the start of `output` and returns the number of bytes written, which
/// is at most the length of `output`; the bytes written are named
/// `zlib_inflated`. On failure it returns an error, here `None`.
#[verifier::external_body]
fn inflate_zlib(input: &[u8], output: &mut Vec<u8>) -> (written: Option<usize>)
    ensures
        final(output)@.len() == old(output)@.len(),
        match written {
            Some(n) => n <= old(output)@.len() && zlib_inflated(input@, old(output)@.len())
                == Some(final(output)@.take(n as int)),
            None => zlib_inflated(input@, old(output)@.len()) is None,
        },
{
    miniz_oxide::inflate::decompress_slice_iter_to_slice(
        output.as_mut_slice(),
        [input].iter().copied(),
        true,
        false,
    ).ok()
}

/// `miniz_oxide::deflate::compress_to_vec_zlib`: the zlib stream that holds
/// `input`, compressed at `level`.
#[verifier::external_body]
pub(crate) fn deflate_zlib(input: &[u8], level: u8) -> (stream: Vec<u8>)
    ensures
        stream@ == zlib_deflated(input@, level),
{
    miniz_oxide::deflate::compress_to_vec_zlib(input, level)
}

/// The filter that compresses each part of a chunk with zlib.
pub struct GZipFilter {
    pub level: u8,
}

impl GZipFilter {
    /// A zlib filter that compresses at `level`.
    pub fn new(level: u8) -> (filter: GZipFilter)
        ensures
            filter.level == level,
    {
        Self { level }
    }

    /// Whether a stored configuration is one of a zlib filter: that of a
    /// compressor of kind `GZip` with a level under 10.
    pub open spec fn accepts(config: FilterConfig) -> bool {
        config matches FilterConfig::Compression { compressor_type, compression_level, .. }
            && compressor_type == FilterType::GZip && compression_level < 10
    }

    /// The level of the filter that a stored configuration describes: the
    /// low byte of the stored level.
    pub open spec fn level_of(config: FilterConfig) -> u8 {
        (wire::as_unsigned(config->compression_level) % 0x100) as u8
    }

    /// The zlib filter that a stored configuration describes.
    pub fn from_config(config: &FilterConfig) -> (r: Result<GZipFilter, Error>)
        ensures
            match r {
                Ok(filter) => Self::accepts(*config) && filter.level == Self::level_of(*config),
                Err(e) => !Self::accepts(*config) && e == (Error::InvalidFilterConfig {
                    kind: FilterType::GZip,
                }),
            },
    {
        match config {
            FilterConfig::Compression { compressor_type, compression_level, .. } => {
                let level: i32 = *compression_level;
                if *compressor_type == FilterType::GZip && level < 10 {
                    let low: u32 = if level >= 0 {
                        level as u32 % 0x100
                    } else {
                        ((level - i32::MIN) as u32 + 0x8000_0000) % 0x100
                    };
                    return Ok(GZipFilter::new(low as u8));
                }
            },
            _ => {},
        }
        Err(Error::InvalidFilterConfig { kind: FilterType::GZip })
    }

    /// Replaces `output` by the zlib stream that holds `input`.
    pub fn compress(&self, input: &[u8], output: &mut Vec<u8>) -> (r: Result<(), Error>)
        ensures
            r is Ok,
            final(output)@ == zlib_deflated(input@, self.level),
    {
        *output = deflate_zlib(input, self.level);
        Ok(())
    }

    /// What a zlib stream decompresses to, where that is just `size` bytes.
    pub open spec fn inflated_to(input: Seq<u8>, size: nat) -> Option<Seq<u8>> {
        match zlib_inflated(input, size) {
            Some(bytes) => if bytes.len() == size {
                Some(bytes)
            } else {
                None
            },
            None => None,
        }
    }
}

impl Filter for GZipFilter {
    open spec fn kind(&self) -> FilterType {
        FilterType::GZip
    }

    open spec fn unfiltered(&self, input: ChunkView, output: ChunkView) -> Option<
        (ChunkView, ChunkView),
    > {
        compression::unfiltered_with(self, input, output)
    }

    fn filter_type(&self) -> (kind: FilterType) {
        FilterType::GZip
    }

    fn unfilter(&self, input: &mut Chunk, output: &mut Chunk) -> (r: Result<(), Error>) {
        compression::decompress(self, FilterType::GZip, input, output)
    }
}

impl Decompressor for GZipFilter {
    open spec fn decompressed(&self, input: Seq<u8>, size: nat) -> Option<Seq<u8>> {
        GZipFilter::inflated_to(input, size)
    }

    fn decompress(&self, input: &[u8], output: &mut Vec<u8>) -> (r: Result<(), Error>)
        ensures
            r matches Err(e) ==> e == (Error::FilterFailure {
                kind: FilterType::GZip,
                chunk_index: 0,
            }),
    {
        let size = output.len();
        match inflate_zlib(input, output) {
            Some(n) => {
                if n == size {
                    assert(output@.take(n as int) =~= output@);
                    Ok(())
                } else {
                    Err(Error::FilterFailure { kind: FilterType::GZip, chunk_index: 0 })
                }
            },
            None => Err(Error::FilterFailure { kind: FilterType::GZip, chunk_index: 0 }),
        }
    }
}

} // verus!
