//! The filter that compresses with LZ4.

use crate::error::Error;
use crate::filters::compression;
use crate::filters::compression::Decompressor;
use crate::filters::{Filter, FilterType};
use crate::storage::filter::FilterConfig;
use crate::storage::tile::{Chunk, ChunkView};
use vstd::prelude::*;

verus! {

/// The bytes that decompressing the LZ4 block `input` yields where room for
/// `capacity` bytes is given, or nothing where the block is damaged or
/// yields more.
pub uninterp spec fn lz4_decompressed(input: Seq<u8>, capacity: nat) -> Option<Seq<u8>>;

/// `lz4_flex::block::decompress_into`, into the slice of `output`. It writes
/// from the start of `output` and returns the number of bytes written, which
/// is at most the length of `output`; the bytes written are named
/// `lz4_decompressed`. On failure it returns an error, here `None`.
#[verifier::external_body]
fn decompress_lz4(input: &[u8], output: &mut Vec<u8>) -> (written: Option<usize>)
    ensures
        final(output)@.len() == old(output)@.len(),
        match written {
            Some(n) => n <= old(output)@.len() && lz4_decompressed(input@, old(output)@.len())
                == Some(final(output)@.take(n as int)),
            None => lz4_decompressed(input@, old(output)@.len()) is None,
        },
{
    lz4_flex::block::decompress_into(input, output.as_mut_slice()).ok()
}

/// The filter that compresses each part of a chunk with LZ4.
pub struct LZ4Filter {
    pub level: i32,
}

impl LZ4Filter {
    /// An LZ4 filter that compresses at `level`.
    pub fn new(level: i32) -> (filter: LZ4Filter)
        ensures
            filter.level == level,
    {
        Self { level }
    }

    /// Whether a stored configuration is one of an LZ4 filter: that of a
    /// compressor of kind `LZ4`.
    pub open spec fn accepts(config: FilterConfig) -> bool {
        config matches FilterConfig::Compression { compressor_type, .. } && compressor_type
            == FilterType::LZ4
    }

    /// The LZ4 filter that a stored configuration describes, with the stored
    /// level.
    pub fn from_config(config: &FilterConfig) -> (r: Result<LZ4Filter, Error>)
        ensures
            match r {
                Ok(filter) => Self::accepts(*config) && filter.level == config->compression_level,
                Err(e) => !Self::accepts(*config) && e == (Error::InvalidFilterConfig {
                    kind: FilterType::LZ4,
                }),
            },
    {
        match config {
            FilterConfig::Compression { compressor_type, compression_level, .. } => {
                if *compressor_type == FilterType::LZ4 {
                    return Ok(LZ4Filter::new(*compression_level));
                }
            },
            _ => {},
        }
        Err(Error::InvalidFilterConfig { kind: FilterType::LZ4 })
    }

    /// What an LZ4 block decompresses to, where that is just `size` bytes.
    pub open spec fn decompressed_to(input: Seq<u8>, size: nat) -> Option<Seq<u8>> {
        match lz4_decompressed(input, size) {
            Some(bytes) => if bytes.len() == size {
                Some(bytes)
            } else {
                None
            },
            None => None,
        }
    }
}

impl Filter for LZ4Filter {
    open spec fn kind(&self) -> FilterType {
        FilterType::LZ4
    }

    open spec fn unfiltered(&self, input: ChunkView, output: ChunkView) -> Option<
        (ChunkView, ChunkView),
    > {
        compression::unfiltered_with(self, input, output)
    }

    fn filter_type(&self) -> (kind: FilterType) {
        FilterType::LZ4
    }

    fn unfilter(&self, input: &mut Chunk, output: &mut Chunk) -> (r: Result<(), Error>) {
        compression::decompress(self, FilterType::LZ4, input, output)
    }
}

impl Decompressor for LZ4Filter {
    open spec fn decompressed(&self, input: Seq<u8>, size: nat) -> Option<Seq<u8>> {
        LZ4Filter::decompressed_to(input, size)
    }

    fn decompress(&self, input: &[u8], output: &mut Vec<u8>) -> (r: Result<(), Error>)
        ensures
            r matches Err(e) ==> e == (Error::FilterFailure {
                kind: FilterType::LZ4,
                chunk_index: 0,
            }),
    {
        let size = output.len();
        match decompress_lz4(input, output) {
            Some(n) => {
                if n == size {
                    assert(output@.take(n as int) =~= output@);
                    Ok(())
                } else {
                    Err(Error::FilterFailure { kind: FilterType::LZ4, chunk_index: 0 })
                }
            },
            None => Err(Error::FilterFailure { kind: FilterType::LZ4, chunk_index: 0 }),
        }
    }
}

} // verus!
