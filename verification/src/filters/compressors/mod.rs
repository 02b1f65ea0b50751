//! Compressors that work on whole buffers.

use crate::error::Error;
use vstd::prelude::*;

pub mod gzip;

verus! {

/// A compressor of whole buffers.
pub trait Compressor {
    /// What `input` compresses to.
    spec fn compressed(&self, input: Seq<u8>) -> Seq<u8>;

    /// What `input` decompresses to, or nothing where it is no compressed
    /// data.
    spec fn decompressed(&self, input: Seq<u8>) -> Option<Seq<u8>>;

    /// Compresses `input`.
    fn compress(&self, input: &[u8]) -> (output: Vec<u8>)
        ensures
            output@ == self.compressed(input@),
    ;

    /// Decompresses `input`.
    fn decompress(&self, input: &[u8]) -> (r: Result<Vec<u8>, Error>)
        ensures
            match r {
                Ok(output) => self.decompressed(input@) == Some(output@),
                Err(e) => self.decompressed(input@) is None,
            },
    ;
}

} // verus!
