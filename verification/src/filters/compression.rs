//! What the compression filters share: the walk over the parts that a chunk
//! was compressed in.
//!
//! A compression filter notes in a chunk's metadata in how many parts it
//! compressed the metadata and the data that it was given, and the two sizes
//! of each part. The compressed parts lie one behind the other in the chunk's
//! data: those of the metadata first, then those of the data.

use crate::error::Error;
use crate::filters::FilterType;
use crate::storage::tile::{Chunk, ChunkView, CompressionChunkInfo, CompressionChunks};
use vstd::prelude::*;
use vstd::slice::slice_subrange;

verus! {

/// What undoes the compression of one part.
pub trait Decompressor {
    /// The `size` bytes that `input` decompresses to, or nothing where
    /// `input` does not decompress to just that many bytes.
    spec fn decompressed(&self, input: Seq<u8>, size: nat) -> Option<Seq<u8>>;

    /// Decompresses `input` into `output`, which it fills.
    fn decompress(&self, input: &[u8], output: &mut Vec<u8>) -> (r: Result<(), Error>)
        ensures
            final(output)@.len() == old(output)@.len(),
            match r {
                Ok(()) => self.decompressed(input@, old(output)@.len()) == Some(final(output)@),
                Err(e) => self.decompressed(input@, old(output)@.len()) is None,
            },
    ;
}

/// What decompressing `parts` gives, where their compressed bytes lie one
/// behind the other in `data` from `cursor` on: the decompressed parts one
/// behind the other, and the cursor behind the last part. Nothing, where a
/// part reaches past the end of `data` or does not decompress to its size.
pub open spec fn spec_parts<D: Decompressor>(
    codec: &D,
    data: Seq<u8>,
    cursor: nat,
    parts: Seq<CompressionChunkInfo>,
) -> Option<(Seq<u8>, nat)>
    decreases parts.len(),
{
    if parts.len() == 0 {
        Some((Seq::empty(), cursor))
    } else {
        match spec_parts(codec, data, cursor, parts.drop_last()) {
            None => None,
            Some((out, at)) => {
                let part = parts.last();
                if at + part.compressed_size > data.len() {
                    None
                } else {
                    match codec.decompressed(
                        data.subrange(at as int, at + part.compressed_size),
                        part.uncompressed_size as nat,
                    ) {
                        None => None,
                        Some(bytes) => Some((out + bytes, at + part.compressed_size as nat)),
                    }
                }
            },
        }
    }
}

/// What undoing a compression makes of an input chunk and an output chunk.
/// The input stays as it is. The output keeps its original size; its
/// metadata and its data become what the parts named in the input's metadata
/// decompress to, read with one cursor that runs through the input's data.
/// Nothing, where the input's metadata does not hold a framing or a part
/// fails.
pub open spec fn unfiltered_with<D: Decompressor>(
    codec: &D,
    input: ChunkView,
    output: ChunkView,
) -> Option<(ChunkView, ChunkView)> {
    match CompressionChunks::spec_decode(input.metadata, 0) {
        Err(e) => None,
        Ok((framing, end)) => match spec_parts(codec, input.data, 0, framing.metadata_parts) {
            None => None,
            Some((metadata, mid)) => match spec_parts(codec, input.data, mid, framing.data_parts) {
                None => None,
                Some((data, next)) => Some(
                    (input, ChunkView { original_size: output.original_size, metadata, data }),
                ),
            },
        },
    }
}

/// Once a part has failed, the parts behind it do not help.
pub proof fn lemma_parts_fail<D: Decompressor>(
    codec: &D,
    data: Seq<u8>,
    cursor: nat,
    parts: Seq<CompressionChunkInfo>,
    k: int,
)
    requires
        0 <= k <= parts.len(),
        spec_parts(codec, data, cursor, parts.take(k)) is None,
    ensures
        spec_parts(codec, data, cursor, parts) is None,
    decreases parts.len() - k,
{
    if k < parts.len() {
        assert(parts.take(k + 1).drop_last() =~= parts.take(k));
        lemma_parts_fail(codec, data, cursor, parts, k + 1);
    } else {
        assert(parts.take(k) =~= parts);
    }
}

/// Decompresses `parts`, whose compressed bytes lie in `data` from `cursor`
/// on.
fn decompress_parts<D: Decompressor>(
    codec: &D,
    data: &Vec<u8>,
    cursor: usize,
    parts: &Vec<CompressionChunkInfo>,
) -> (r: Option<(Vec<u8>, usize)>)
    requires
        cursor <= data@.len(),
    ensures
        match r {
            Some((out, next)) => next <= data@.len() && spec_parts(
                codec,
                data@,
                cursor as nat,
                parts@,
            ) == Some((out@, next as nat)),
            None => spec_parts(codec, data@, cursor as nat, parts@) is None,
        },
{
    let mut out: Vec<u8> = Vec::new();
    let mut at: usize = cursor;
    let mut i: usize = 0;
    while i < parts.len()
        invariant
            i <= parts@.len(),
            at <= data@.len(),
            spec_parts(codec, data@, cursor as nat, parts@.take(i as int)) == Some(
                (out@, at as nat),
            ),
        decreases parts@.len() - i,
    {
        let part = parts[i];
        proof {
            assert(parts@.take(i + 1).drop_last() =~= parts@.take(i as int));
            assert(parts@.take(i + 1).last() == part);
        }
        if part.compressed_size as usize > data.len() - at {
            proof {
                lemma_parts_fail(codec, data@, cursor as nat, parts@, i + 1);
            }
            return None;
        }
        let end: usize = at + part.compressed_size as usize;
        let mut window: Vec<u8> = vec![0u8; part.uncompressed_size as usize];
        match codec.decompress(slice_subrange(data.as_slice(), at, end), &mut window) {
            Ok(()) => {
                out.append(&mut window);
                at = end;
            },
            Err(e) => {
                proof {
                    lemma_parts_fail(codec, data@, cursor as nat, parts@, i + 1);
                }
                return None;
            },
        }
        i += 1;
    }
    assert(parts@.take(i as int) =~= parts@);
    Some((out, at))
}

/// Undoes the compression of `input` into `output`, with `codec` for each
/// part. A failure is reported as one of the filter of `kind`.
pub fn decompress<D: Decompressor>(
    codec: &D,
    kind: FilterType,
    input: &mut Chunk,
    output: &mut Chunk,
) -> (r: Result<(), Error>)
    ensures
        match r {
            Ok(()) => unfiltered_with(codec, old(input)@, old(output)@) == Some(
                (final(input)@, final(output)@),
            ),
            Err(e) => unfiltered_with(codec, old(input)@, old(output)@) is None && e == (
            Error::FilterFailure { kind, chunk_index: 0 }) && final(input)@ == old(input)@
                && final(output)@ == old(output)@,
        },
{
    let failure = Error::FilterFailure { kind, chunk_index: 0 };
    let framing = match CompressionChunks::decode(input.metadata.as_slice(), 0) {
        Ok((framing, end)) => framing,
        Err(e) => {
            return Err(failure);
        },
    };
    let (metadata, mid) = match decompress_parts(codec, &input.data, 0, &framing.metadata_parts) {
        Some(done) => done,
        None => {
            return Err(failure);
        },
    };
    let (data, next) = match decompress_parts(codec, &input.data, mid, &framing.data_parts) {
        Some(done) => done,
        None => {
            return Err(failure);
        },
    };
    output.metadata = metadata;
    output.data = data;
    Ok(())
}

} // verus!
