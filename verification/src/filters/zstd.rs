//! The filter that compresses with Zstandard.

use crate::error::Error;
use crate::filters::compression;
use crate::filters::compression::Decompressor;
use crate::filters::{Filter, FilterType};
use crate::storage::filter::FilterConfig;
use crate::storage::tile::{Chunk, ChunkView};
use vstd::prelude::*;

verus! {

/// The bytes that decompressing the Zstandard frames `input` yields where
/// room for `capacity` bytes is given, or nothing where the frames are
/// damaged or yield more.
pub uninterp spec fn zstd_decompressed(input: Seq<u8>, capacity: nat) -> Option<Seq<u8>>;

/// `zstd_safe::decompress`, into the slice of `output`. It writes from the
/// start of `output` and returns the number of bytes written, which is at
/// most the length of `output`; the bytes written are named
/// `zstd_decompressed`. On failure it returns an error code, here `None`.
#[verifier::external_body]
fn decompress_zstd(input: &[u8], output: &mut Vec<u8>) -> (written: Option<usize>)
    ensures
        final(output)@.len() == old(output)@.len(),
        match written {
            Some(n) => n <= old(output)@.len() && zstd_decompressed(input@, old(output)@.len())
                == Some(final(output)@.take(n as int)),
            None => zstd_decompressed(input@, old(output)@.len()) is None,
        },
{
    zstd_safe::decompress(output.as_mut_slice(), input).ok()
}

/// The filter that compresses each part of a chunk with Zstandard.
pub struct ZstdFilter {
    pub level: i32,
}

impl ZstdFilter {
    /// A Zstandard filter that compresses at `level`.
    pub fn new(level: i32) -> (filter: ZstdFilter)
        ensures
            filter.level == level,
    {
        Self { level }
    }

    /// Whether a stored configuration is one of a Zstandard filter: that of
    /// a compressor of kind `Zstd`.
    pub open spec fn accepts(config: FilterConfig) -> bool {
        config matches FilterConfig::Compression { compressor_type, .. } && compressor_type
            == FilterType::Zstd
    }

    /// The level of the filter that a stored configuration describes: the
    /// stored one where that lies between 1 and 22, and 3 otherwise.
    pub open spec fn level_of(config: FilterConfig) -> i32 {
        if 1 <= config->compression_level <= 22 {
            config->compression_level
        } else {
            3
        }
    }

    /// The Zstandard filter that a stored configuration describes.
    pub fn from_config(config: &FilterConfig) -> (r: Result<ZstdFilter, Error>)
        ensures
            match r {
                Ok(filter) => Self::accepts(*config) && filter.level == Self::level_of(*config),
                Err(e) => !Self::accepts(*config) && e == (Error::InvalidFilterConfig {
                    kind: FilterType::Zstd,
                }),
            },
    {
        match config {
            FilterConfig::Compression { compressor_type, compression_level, .. } => {
                if *compressor_type == FilterType::Zstd {
                    let level: i32 = if *compression_level >= 1 && *compression_level <= 22 {
                        *compression_level
                    } else {
                        3
                    };
                    return Ok(ZstdFilter::new(level));
                }
            },
            _ => {},
        }
        Err(Error::InvalidFilterConfig { kind: FilterType::Zstd })
    }

    /// What Zstandard frames decompress to, where that is just `size` bytes.
    pub open spec fn decompressed_to(input: Seq<u8>, size: nat) -> Option<Seq<u8>> {
        match zstd_decompressed(input, size) {
            Some(bytes) => if bytes.len() == size {
                Some(bytes)
            } else {
                None
            },
            None => None,
        }
    }
}

impl Filter for ZstdFilter {
    open spec fn kind(&self) -> FilterType {
        FilterType::Zstd
    }

    open spec fn unfiltered(&self, input: ChunkView, output: ChunkView) -> Option<
        (ChunkView, ChunkView),
    > {
        compression::unfiltered_with(self, input, output)
    }

    fn filter_type(&self) -> (kind: FilterType) {
        FilterType::Zstd
    }

    fn unfilter(&self, input: &mut Chunk, output: &mut Chunk) -> (r: Result<(), Error>) {
        compression::decompress(self, FilterType::Zstd, input, output)
    }
}

impl Decompressor for ZstdFilter {
    open spec fn decompressed(&self, input: Seq<u8>, size: nat) -> Option<Seq<u8>> {
        ZstdFilter::decompressed_to(input, size)
    }

    fn decompress(&self, input: &[u8], output: &mut Vec<u8>) -> (r: Result<(), Error>)
        ensures
            r matches Err(e) ==> e == (Error::FilterFailure {
                kind: FilterType::Zstd,
                chunk_index: 0,
            }),
    {
        let size = output.len();
        match decompress_zstd(input, output) {
            Some(n) => {
                if n == size {
                    assert(output@.take(n as int) =~= output@);
                    Ok(())
                } else {
                    Err(Error::FilterFailure { kind: FilterType::Zstd, chunk_index: 0 })
                }
            },
            None => Err(Error::FilterFailure { kind: FilterType::Zstd, chunk_index: 0 }),
        }
    }
}

} // verus!
