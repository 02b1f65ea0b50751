//! The stored form of a generic tile: a header of 34 bytes, the filter
//! pipeline and the chunks that hold the filtered data.

use crate::error::{Error, Field};
use crate::filters;
use crate::filters::FilterChain;
use crate::storage::filter::FilterList;
use crate::storage::wire;
use vstd::prelude::*;
use vstd::slice::slice_subrange;

verus! {

/// The number of bytes that the header of a generic tile takes.
pub const GENERIC_TILE_HEADER_SIZE: u64 = 34;

/// An independently filtered slice of a tile.
#[derive(Debug, PartialEq, Eq)]
pub struct Chunk {
    /// The length that the slice had before it was filtered.
    pub original_size: u32,
    /// What the filters noted beside the data.
    pub metadata: Vec<u8>,
    /// The filtered data.
    pub data: Vec<u8>,
}

/// What a chunk holds.
pub ghost struct ChunkView {
    pub original_size: u32,
    pub metadata: Seq<u8>,
    pub data: Seq<u8>,
}

impl View for Chunk {
    type V = ChunkView;

    open spec fn view(&self) -> ChunkView {
        ChunkView {
            original_size: self.original_size,
            metadata: self.metadata@,
            data: self.data@,
        }
    }
}

impl ChunkView {
    /// The chunk that holds nothing.
    pub open spec fn empty() -> ChunkView {
        ChunkView { original_size: 0, metadata: Seq::empty(), data: Seq::empty() }
    }

    /// The bytes that store the chunk.
    pub open spec fn spec_encode(self) -> Seq<u8> {
        wire::u32_le(self.original_size) + wire::u32_le(self.data.len() as u32) + wire::u32_le(
            self.metadata.len() as u32,
        ) + self.metadata + self.data
    }

    /// Encoding a chunk, as a function.
    pub open spec fn encoder() -> spec_fn(ChunkView) -> Seq<u8> {
        |c: ChunkView| c.spec_encode()
    }
}

impl Default for Chunk {
    fn default() -> (chunk: Chunk)
        ensures
            chunk@ == ChunkView::empty(),
    {
        Chunk { original_size: 0, metadata: Vec::new(), data: Vec::new() }
    }
}

impl Chunk {
    /// What decoding a chunk at `pos` gives: the chunk and the position
    /// behind it, or the end of input at the part that does not fit: the
    /// three sizes, the metadata or the data.
    pub open spec fn spec_decode(b: Seq<u8>, pos: usize) -> Result<(ChunkView, usize), Error> {
        if pos + 12 > b.len() {
            Err(Error::UnexpectedEof { field: Field::ChunkHeader, offset: pos })
        } else {
            match wire::spec_read_bytes(
                b,
                (pos + 12) as usize,
                wire::le_u32(b, pos + 8) as u64,
                Field::Metadata,
            ) {
                Err(e) => Err(e),
                Ok((metadata, mid)) => match wire::spec_read_bytes(
                    b,
                    mid,
                    wire::le_u32(b, pos + 4) as u64,
                    Field::Data,
                ) {
                    Err(e) => Err(e),
                    Ok((data, next)) => Ok(
                        (
                            ChunkView {
                                original_size: wire::le_u32(b, pos as int),
                                metadata,
                                data,
                            },
                            next,
                        ),
                    ),
                },
            }
        }
    }

    /// Decoding a chunk of `b`, as a function of the position.
    pub open spec fn decoder(b: Seq<u8>) -> spec_fn(usize) -> Result<(ChunkView, usize), Error> {
        |pos: usize| Self::spec_decode(b, pos)
    }

    /// Decodes the chunk at `pos`.
    pub fn decode(bytes: &[u8], pos: usize) -> (r: Result<(Chunk, usize), Error>)
        ensures
            wire::decoded(r) == Self::spec_decode(bytes@, pos),
    {
        wire::need(bytes, pos, 12, Field::ChunkHeader)?;
        let original_size = wire::get_u32(bytes, pos);
        let data_size = wire::get_u32(bytes, pos + 4);
        let metadata_size = wire::get_u32(bytes, pos + 8);
        let (metadata, mid) = wire::read_bytes(bytes, pos + 12, metadata_size as u64, Field::Metadata)?;
        let (data, next) = wire::read_bytes(bytes, mid, data_size as u64, Field::Data)?;
        Ok((Chunk { original_size, metadata, data }, next))
    }

    /// Appends the bytes that store the chunk.
    pub fn encode(&self, out: &mut Vec<u8>)
        requires
            self.metadata@.len() <= u32::MAX,
            self.data@.len() <= u32::MAX,
        ensures
            final(out)@ == old(out)@ + self@.spec_encode(),
    {
        wire::write_u32(out, self.original_size);
        wire::write_u32(out, self.data.len() as u32);
        wire::write_u32(out, self.metadata.len() as u32);
        wire::write_bytes(out, self.metadata.as_slice());
        wire::write_bytes(out, self.data.as_slice());
        assert(out@ =~= old(out)@ + self@.spec_encode());
    }

    /// Encoding a decoded chunk gives the bytes it was decoded from.
    pub proof fn lemma_written(b: Seq<u8>, pos: usize)
        requires
            b.len() <= usize::MAX,
            Self::spec_decode(b, pos) is Ok,
        ensures
            ({
                let (c, next) = Self::spec_decode(b, pos)->Ok_0;
                &&& pos <= next <= b.len()
                &&& c.metadata.len() <= u32::MAX
                &&& c.data.len() <= u32::MAX
                &&& c.spec_encode() == b.subrange(pos as int, next as int)
            }),
    {
        let at = pos as int;
        let (c, next) = Self::spec_decode(b, pos)->Ok_0;
        let mid = at + 12 + c.metadata.len();
        wire::lemma_u32_written(b, at);
        wire::lemma_u32_written(b, at + 4);
        wire::lemma_u32_written(b, at + 8);
        wire::lemma_join(b, at, at + 4, at + 8);
        wire::lemma_join(b, at, at + 8, at + 12);
        wire::lemma_join(b, at, at + 12, mid);
        wire::lemma_join(b, at, mid, next as int);
    }

    /// Every decoded chunk writes back to the bytes it came from.
    pub proof fn lemma_writes_back(b: Seq<u8>)
        requires
            b.len() <= usize::MAX,
        ensures
            wire::writes_back(b, Self::decoder(b), ChunkView::encoder()),
    {
        assert forall|p: usize| p <= b.len() implies (#[trigger] Self::decoder(b)(p) matches Ok(
            (t, q),
        ) ==> p <= q <= b.len() && ChunkView::encoder()(t) == b.subrange(p as int, q as int)) by {
            if Self::spec_decode(b, p) is Ok {
                Self::lemma_written(b, p);
            }
        }
    }
}

/// The chunks of a tile, in the order of the data they hold.
#[derive(Debug, PartialEq, Eq)]
pub struct ChunkedData {
    pub num_chunks: u64,
    pub chunks: Vec<Chunk>,
}

/// What the chunks of a tile hold.
pub ghost struct ChunkedDataView {
    pub num_chunks: u64,
    pub chunks: Seq<ChunkView>,
}

impl View for ChunkedData {
    type V = ChunkedDataView;

    open spec fn view(&self) -> ChunkedDataView {
        ChunkedDataView { num_chunks: self.num_chunks, chunks: wire::views(self.chunks@) }
    }
}

impl ChunkedDataView {
    /// The bytes that store the chunks.
    pub open spec fn spec_encode(self) -> Seq<u8> {
        wire::u64_le(self.num_chunks) + wire::spec_concat(self.chunks, ChunkView::encoder())
    }

    /// Whether the chunks can be stored: their number is the stated one, and
    /// the lengths of their parts fit the four bytes each is stored in.
    pub open spec fn storable(self) -> bool {
        &&& self.chunks.len() == self.num_chunks
        &&& forall|i: int|
            0 <= i < self.chunks.len() ==> (#[trigger] self.chunks[i]).metadata.len() <= u32::MAX
                && self.chunks[i].data.len() <= u32::MAX
    }
}

impl ChunkedData {
    /// As many empty chunks as `num_chunks` says, cut to what the machine
    /// can count.
    pub fn new(num_chunks: u64) -> (chunked: ChunkedData)
        ensures
            chunked.num_chunks == num_chunks,
            chunked.chunks@.len() == num_chunks as usize,
            forall|i: int| 0 <= i < chunked.chunks@.len() ==> chunked.chunks@[i]@ == ChunkView::empty(),
    {
        let n: usize = #[verifier::truncate] (num_chunks as usize);
        let mut chunks: Vec<Chunk> = Vec::new();
        let mut i: usize = 0;
        while i < n
            invariant
                i <= n,
                chunks@.len() == i,
                forall|j: int| 0 <= j < chunks@.len() ==> chunks@[j]@ == ChunkView::empty(),
            decreases n - i,
        {
            chunks.push(Chunk::default());
            i += 1;
        }
        ChunkedData { num_chunks, chunks }
    }

    /// What decoding the chunks of a tile at `pos` gives: the chunks and the
    /// position behind them, or the end of input at the count or at the part
    /// of the first chunk that does not fit.
    pub open spec fn spec_decode(b: Seq<u8>, pos: usize) -> Result<(ChunkedDataView, usize), Error> {
        if pos + 8 > b.len() {
            Err(Error::UnexpectedEof { field: Field::Count, offset: pos })
        } else {
            match wire::spec_repeat(
                Chunk::decoder(b),
                (pos + 8) as usize,
                wire::le_u64(b, pos as int) as nat,
            ) {
                Err(e) => Err(e),
                Ok((chunks, next)) => Ok(
                    (ChunkedDataView { num_chunks: wire::le_u64(b, pos as int), chunks }, next),
                ),
            }
        }
    }

    /// Decodes the chunks of a tile at `pos`.
    pub fn decode(bytes: &[u8], pos: usize) -> (r: Result<(ChunkedData, usize), Error>)
        ensures
            wire::decoded(r) == Self::spec_decode(bytes@, pos),
            r matches Ok((chunked, next)) ==> chunked@.storable() && pos <= next <= bytes@.len(),
    {
        wire::need(bytes, pos, 8, Field::Count)?;
        let num_chunks = wire::get_u64(bytes, pos);
        let start: usize = pos + 8;
        let mut chunks: Vec<Chunk> = Vec::new();
        let mut at: usize = start;
        let mut i: u64 = 0;
        proof {
            wire::lemma_views_empty::<Chunk>();
        }
        while i < num_chunks
            invariant
                i <= num_chunks,
                pos + 8 <= bytes@.len(),
                start == pos + 8,
                num_chunks == wire::le_u64(bytes@, pos as int),
                wire::spec_repeat(Chunk::decoder(bytes@), start, i as nat) == Ok::<
                    (Seq<ChunkView>, usize),
                    Error,
                >((wire::views(chunks@), at)),
            decreases num_chunks - i,
        {
            match Chunk::decode(bytes, at) {
                Ok((c, next)) => {
                    proof {
                        wire::lemma_views_push(chunks@, c);
                    }
                    chunks.push(c);
                    at = next;
                },
                Err(e) => {
                    proof {
                        let item = Chunk::decoder(bytes@);
                        assert(item(at) == Err::<(ChunkView, usize), Error>(e));
                        assert(wire::spec_repeat(item, start, (i + 1) as nat) == Err::<
                            (Seq<ChunkView>, usize),
                            Error,
                        >(e));
                        wire::lemma_repeat_error(item, start, (i + 1) as nat, num_chunks as nat);
                    }
                    return Err(e);
                },
            }
            i += 1;
        }
        let chunked = ChunkedData { num_chunks, chunks };
        proof {
            assert(bytes@.len() == bytes.len());
            Self::lemma_written(bytes@, pos);
        }
        Ok((chunked, at))
    }

    /// Appends the bytes that store the chunks.
    pub fn encode(&self, out: &mut Vec<u8>)
        requires
            self@.storable(),
        ensures
            final(out)@ == old(out)@ + self@.spec_encode(),
    {
        wire::write_u64(out, self.num_chunks);
        let ghost head = out@;
        let ghost all = wire::views(self.chunks@);
        let mut i: usize = 0;
        while i < self.chunks.len()
            invariant
                i <= self.chunks@.len(),
                all == wire::views(self.chunks@),
                self@.storable(),
                out@ == head + wire::spec_concat(all.take(i as int), ChunkView::encoder()),
            decreases self.chunks@.len() - i,
        {
            assert(all[i as int] == self.chunks@[i as int]@);
            self.chunks[i].encode(out);
            proof {
                wire::lemma_concat_push(all.take(i as int), all[i as int], ChunkView::encoder());
                assert(all.take(i as int).push(all[i as int]) =~= all.take(i + 1));
                assert(out@ =~= head + wire::spec_concat(all.take(i + 1), ChunkView::encoder()));
            }
            i += 1;
        }
        assert(all.take(i as int) =~= all);
        assert(out@ =~= old(out)@ + self@.spec_encode());
    }

    /// Encoding decoded chunks gives the bytes they were decoded from.
    pub proof fn lemma_written(b: Seq<u8>, pos: usize)
        requires
            b.len() <= usize::MAX,
            Self::spec_decode(b, pos) is Ok,
        ensures
            ({
                let (chunked, next) = Self::spec_decode(b, pos)->Ok_0;
                &&& pos <= next <= b.len()
                &&& chunked.storable()
                &&& chunked.spec_encode() == b.subrange(pos as int, next as int)
            }),
    {
        let at = pos as int;
        let n = wire::le_u64(b, at) as nat;
        let start = (pos + 8) as usize;
        let (chunked, next) = Self::spec_decode(b, pos)->Ok_0;
        Chunk::lemma_writes_back(b);
        wire::lemma_repeat_written(b, Chunk::decoder(b), ChunkView::encoder(), start, n);
        wire::lemma_repeat_len(Chunk::decoder(b), start, n);
        Self::lemma_parts_fit(b, start, n);
        wire::lemma_u64_written(b, at);
        wire::lemma_join(b, at, at + 8, next as int);
    }

    /// The parts of decoded chunks have lengths that fit four bytes.
    proof fn lemma_parts_fit(b: Seq<u8>, start: usize, n: nat)
        requires
            b.len() <= usize::MAX,
        ensures
            wire::spec_repeat(Chunk::decoder(b), start, n) matches Ok((chunks, next)) ==> forall|
                i: int,
            |
                0 <= i < chunks.len() ==> (#[trigger] chunks[i]).metadata.len() <= u32::MAX
                    && chunks[i].data.len() <= u32::MAX,
        decreases n,
    {
        if n > 0 {
            Self::lemma_parts_fit(b, start, (n - 1) as nat);
            match wire::spec_repeat(Chunk::decoder(b), start, (n - 1) as nat) {
                Err(e) => {},
                Ok((chunks, mid)) => {
                    if Chunk::spec_decode(b, mid) is Ok {
                        Chunk::lemma_written(b, mid);
                    }
                },
            }
        }
    }
}

/// The sizes of one compressed part of a chunk.
#[derive(Clone, Copy, Debug, PartialEq, Eq)]
pub struct CompressionChunkInfo {
    pub uncompressed_size: u32,
    pub compressed_size: u32,
}

impl CompressionChunkInfo {
    /// What decoding the sizes of a part at `pos` gives.
    pub open spec fn spec_decode(b: Seq<u8>, pos: usize) -> Result<
        (CompressionChunkInfo, usize),
        Error,
    > {
        if pos + 8 > b.len() {
            Err(Error::UnexpectedEof { field: Field::Part, offset: pos })
        } else {
            Ok(
                (
                    CompressionChunkInfo {
                        uncompressed_size: wire::le_u32(b, pos as int),
                        compressed_size: wire::le_u32(b, pos + 4),
                    },
                    (pos + 8) as usize,
                ),
            )
        }
    }

    /// Decoding the sizes of a part of `b`, as a function of the position.
    pub open spec fn decoder(b: Seq<u8>) -> spec_fn(usize) -> Result<
        (CompressionChunkInfo, usize),
        Error,
    > {
        |pos: usize| Self::spec_decode(b, pos)
    }

    /// The bytes that store the sizes.
    pub open spec fn spec_encode(self) -> Seq<u8> {
        wire::u32_le(self.uncompressed_size) + wire::u32_le(self.compressed_size)
    }

    /// Encoding the sizes of a part, as a function.
    pub open spec fn encoder() -> spec_fn(CompressionChunkInfo) -> Seq<u8> {
        |p: CompressionChunkInfo| p.spec_encode()
    }

    /// Decodes the sizes of a part at `pos`.
    pub fn decode(bytes: &[u8], pos: usize) -> (r: Result<(CompressionChunkInfo, usize), Error>)
        ensures
            r == Self::spec_decode(bytes@, pos),
    {
        wire::need(bytes, pos, 8, Field::Part)?;
        Ok(
            (
                CompressionChunkInfo {
                    uncompressed_size: wire::get_u32(bytes, pos),
                    compressed_size: wire::get_u32(bytes, pos + 4),
                },
                pos + 8,
            ),
        )
    }

    /// Appends the bytes that store the sizes.
    pub fn encode(&self, out: &mut Vec<u8>)
        ensures
            final(out)@ == old(out)@ + self.spec_encode(),
    {
        wire::write_u32(out, self.uncompressed_size);
        wire::write_u32(out, self.compressed_size);
        assert(out@ =~= old(out)@ + self.spec_encode());
    }

    /// Every decoded part writes back to the bytes it came from.
    pub proof fn lemma_writes_back(b: Seq<u8>)
        requires
            b.len() <= usize::MAX,
        ensures
            wire::writes_back(b, Self::decoder(b), Self::encoder()),
    {
        assert forall|p: usize| p <= b.len() implies (#[trigger] Self::decoder(b)(p) matches Ok(
            (t, q),
        ) ==> p <= q <= b.len() && Self::encoder()(t) == b.subrange(p as int, q as int)) by {
            if Self::spec_decode(b, p) is Ok {
                wire::lemma_u32_written(b, p as int);
                wire::lemma_u32_written(b, p + 4);
                wire::lemma_join(b, p as int, p + 4, p + 8);
            }
        }
    }
}

/// What a compression filter notes in the metadata of a chunk: the sizes of
/// the parts that the chunk's metadata and data were compressed in.
#[derive(Debug, PartialEq, Eq)]
pub struct CompressionChunks {
    pub metadata_parts: Vec<CompressionChunkInfo>,
    pub data_parts: Vec<CompressionChunkInfo>,
}

/// What the framing of a compressed chunk holds.
pub ghost struct CompressionChunksView {
    pub metadata_parts: Seq<CompressionChunkInfo>,
    pub data_parts: Seq<CompressionChunkInfo>,
}

impl View for CompressionChunks {
    type V = CompressionChunksView;

    open spec fn view(&self) -> CompressionChunksView {
        CompressionChunksView {
            metadata_parts: self.metadata_parts@,
            data_parts: self.data_parts@,
        }
    }
}

impl CompressionChunksView {
    /// The bytes that store the framing.
    pub open spec fn spec_encode(self) -> Seq<u8> {
        wire::u32_le(self.metadata_parts.len() as u32) + wire::u32_le(self.data_parts.len() as u32)
            + wire::spec_concat(self.metadata_parts, CompressionChunkInfo::encoder())
            + wire::spec_concat(self.data_parts, CompressionChunkInfo::encoder())
    }
}

impl CompressionChunks {
    /// What decoding a framing at `pos` gives: the two lists of parts and
    /// the position behind them, or the end of input at the counts or at the
    /// first part that does not fit.
    pub open spec fn spec_decode(b: Seq<u8>, pos: usize) -> Result<
        (CompressionChunksView, usize),
        Error,
    > {
        if pos + 8 > b.len() {
            Err(Error::UnexpectedEof { field: Field::Count, offset: pos })
        } else {
            match wire::spec_repeat(
                CompressionChunkInfo::decoder(b),
                (pos + 8) as usize,
                wire::le_u32(b, pos as int) as nat,
            ) {
                Err(e) => Err(e),
                Ok((metadata_parts, mid)) => match wire::spec_repeat(
                    CompressionChunkInfo::decoder(b),
                    mid,
                    wire::le_u32(b, pos + 4) as nat,
                ) {
                    Err(e) => Err(e),
                    Ok((data_parts, next)) => Ok(
                        (CompressionChunksView { metadata_parts, data_parts }, next),
                    ),
                },
            }
        }
    }

    /// Decodes `n` parts from `start` on.
    fn decode_parts(bytes: &[u8], start: usize, n: u32) -> (r: Result<
        (Vec<CompressionChunkInfo>, usize),
        Error,
    >)
        ensures
            wire::decoded(r) == wire::spec_repeat(
                CompressionChunkInfo::decoder(bytes@),
                start,
                n as nat,
            ),
    {
        let mut parts: Vec<CompressionChunkInfo> = Vec::new();
        let mut at: usize = start;
        let mut i: u32 = 0;
        while i < n
            invariant
                i <= n,
                wire::spec_repeat(CompressionChunkInfo::decoder(bytes@), start, i as nat) == Ok::<
                    (Seq<CompressionChunkInfo>, usize),
                    Error,
                >((parts@, at)),
            decreases n - i,
        {
            match CompressionChunkInfo::decode(bytes, at) {
                Ok((p, next)) => {
                    parts.push(p);
                    at = next;
                },
                Err(e) => {
                    proof {
                        let item = CompressionChunkInfo::decoder(bytes@);
                        assert(item(at) == Err::<(CompressionChunkInfo, usize), Error>(e));
                        assert(wire::spec_repeat(item, start, (i + 1) as nat) == Err::<
                            (Seq<CompressionChunkInfo>, usize),
                            Error,
                        >(e));
                        wire::lemma_repeat_error(item, start, (i + 1) as nat, n as nat);
                    }
                    return Err(e);
                },
            }
            i += 1;
        }
        Ok((parts, at))
    }

    /// Decodes the framing of a compressed chunk at `pos`.
    pub fn decode(bytes: &[u8], pos: usize) -> (r: Result<(CompressionChunks, usize), Error>)
        ensures
            wire::decoded(r) == Self::spec_decode(bytes@, pos),
    {
        wire::need(bytes, pos, 8, Field::Count)?;
        let num_metadata_parts = wire::get_u32(bytes, pos);
        let num_data_parts = wire::get_u32(bytes, pos + 4);
        let (metadata_parts, mid) = Self::decode_parts(bytes, pos + 8, num_metadata_parts)?;
        let (data_parts, next) = Self::decode_parts(bytes, mid, num_data_parts)?;
        Ok((CompressionChunks { metadata_parts, data_parts }, next))
    }

    /// Appends the bytes that store `parts`.
    fn encode_parts(parts: &Vec<CompressionChunkInfo>, out: &mut Vec<u8>)
        ensures
            final(out)@ == old(out)@ + wire::spec_concat(parts@, CompressionChunkInfo::encoder()),
    {
        let mut i: usize = 0;
        let ghost head = out@;
        assert(out@ =~= head + wire::spec_concat(
            parts@.take(0),
            CompressionChunkInfo::encoder(),
        ));
        while i < parts.len()
            invariant
                i <= parts@.len(),
                out@ == head + wire::spec_concat(
                    parts@.take(i as int),
                    CompressionChunkInfo::encoder(),
                ),
            decreases parts@.len() - i,
        {
            parts[i].encode(out);
            proof {
                wire::lemma_concat_push(
                    parts@.take(i as int),
                    parts@[i as int],
                    CompressionChunkInfo::encoder(),
                );
                assert(parts@.take(i as int).push(parts@[i as int]) =~= parts@.take(i + 1));
                assert(out@ =~= head + wire::spec_concat(
                    parts@.take(i + 1),
                    CompressionChunkInfo::encoder(),
                ));
            }
            i += 1;
        }
        assert(parts@.take(i as int) =~= parts@);
    }

    /// Appends the bytes that store the framing.
    pub fn encode(&self, out: &mut Vec<u8>)
        requires
            self.metadata_parts@.len() <= u32::MAX,
            self.data_parts@.len() <= u32::MAX,
        ensures
            final(out)@ == old(out)@ + self@.spec_encode(),
    {
        wire::write_u32(out, self.metadata_parts.len() as u32);
        wire::write_u32(out, self.data_parts.len() as u32);
        Self::encode_parts(&self.metadata_parts, out);
        Self::encode_parts(&self.data_parts, out);
        assert(out@ =~= old(out)@ + self@.spec_encode());
    }

    /// Encoding a decoded framing gives the bytes it was decoded from.
    pub proof fn lemma_written(b: Seq<u8>, pos: usize)
        requires
            b.len() <= usize::MAX,
            Self::spec_decode(b, pos) is Ok,
        ensures
            ({
                let (framing, next) = Self::spec_decode(b, pos)->Ok_0;
                &&& pos <= next <= b.len()
                &&& framing.metadata_parts.len() <= u32::MAX
                &&& framing.data_parts.len() <= u32::MAX
                &&& framing.spec_encode() == b.subrange(pos as int, next as int)
            }),
    {
        let at = pos as int;
        let start = (pos + 8) as usize;
        let item = CompressionChunkInfo::decoder(b);
        let enc = CompressionChunkInfo::encoder();
        let n_meta = wire::le_u32(b, at) as nat;
        let n_data = wire::le_u32(b, at + 4) as nat;
        let (framing, next) = Self::spec_decode(b, pos)->Ok_0;
        let mid = wire::spec_repeat(item, start, n_meta)->Ok_0.1;
        CompressionChunkInfo::lemma_writes_back(b);
        wire::lemma_repeat_written(b, item, enc, start, n_meta);
        wire::lemma_repeat_len(item, start, n_meta);
        wire::lemma_repeat_written(b, item, enc, mid, n_data);
        wire::lemma_repeat_len(item, mid, n_data);
        wire::lemma_u32_written(b, at);
        wire::lemma_u32_written(b, at + 4);
        wire::lemma_join(b, at, at + 4, at + 8);
        wire::lemma_join(b, at, at + 8, mid as int);
        wire::lemma_join(b, at, mid as int, next as int);
    }
}

/// The header that every generic tile starts with.
#[derive(Clone, Copy, Debug, PartialEq, Eq)]
pub struct GenericTileHeader {
    pub version: u32,
    pub persisted_size: u64,
    pub tile_size: u64,
    pub datatype: u8,
    pub cell_size: u64,
    pub encryption_type: u8,
    pub filter_pipeline_size: u32,
}

impl GenericTileHeader {
    /// The header that the 34 bytes of `b` at `at` hold.
    pub open spec fn at(b: Seq<u8>, at: int) -> GenericTileHeader {
        GenericTileHeader {
            version: wire::le_u32(b, at),
            persisted_size: wire::le_u64(b, at + 4),
            tile_size: wire::le_u64(b, at + 12),
            datatype: b[at + 20],
            cell_size: wire::le_u64(b, at + 21),
            encryption_type: b[at + 29],
            filter_pipeline_size: wire::le_u32(b, at + 30),
        }
    }

    /// What decoding a header at `pos` gives: the header and the position
    /// behind it, or the end of input where fewer than 34 bytes are there.
    pub open spec fn spec_decode(b: Seq<u8>, pos: usize) -> Result<(GenericTileHeader, usize), Error> {
        if pos + 34 > b.len() {
            Err(Error::UnexpectedEof { field: Field::TileHeader, offset: pos })
        } else {
            Ok((Self::at(b, pos as int), (pos + 34) as usize))
        }
    }

    /// The 34 bytes that store the header.
    pub open spec fn spec_encode(self) -> Seq<u8> {
        wire::u32_le(self.version) + wire::u64_le(self.persisted_size) + wire::u64_le(
            self.tile_size,
        ) + seq![self.datatype] + wire::u64_le(self.cell_size) + seq![self.encryption_type]
            + wire::u32_le(self.filter_pipeline_size)
    }

    /// Decodes the header at `pos`.
    pub fn decode(bytes: &[u8], pos: usize) -> (r: Result<(GenericTileHeader, usize), Error>)
        ensures
            r == Self::spec_decode(bytes@, pos),
    {
        wire::need(bytes, pos, 34, Field::TileHeader)?;
        Ok(
            (
                GenericTileHeader {
                    version: wire::get_u32(bytes, pos),
                    persisted_size: wire::get_u64(bytes, pos + 4),
                    tile_size: wire::get_u64(bytes, pos + 12),
                    datatype: bytes[pos + 20],
                    cell_size: wire::get_u64(bytes, pos + 21),
                    encryption_type: bytes[pos + 29],
                    filter_pipeline_size: wire::get_u32(bytes, pos + 30),
                },
                pos + 34,
            ),
        )
    }

    /// Appends the 34 bytes that store the header.
    pub fn encode(&self, out: &mut Vec<u8>)
        ensures
            final(out)@ == old(out)@ + self.spec_encode(),
    {
        wire::write_u32(out, self.version);
        wire::write_u64(out, self.persisted_size);
        wire::write_u64(out, self.tile_size);
        out.push(self.datatype);
        wire::write_u64(out, self.cell_size);
        out.push(self.encryption_type);
        wire::write_u32(out, self.filter_pipeline_size);
        assert(out@ =~= old(out)@ + self.spec_encode());
    }

    /// Encoding a decoded header gives the bytes it was decoded from.
    pub proof fn lemma_written(b: Seq<u8>, pos: usize)
        requires
            b.len() <= usize::MAX,
            Self::spec_decode(b, pos) is Ok,
        ensures
            Self::at(b, pos as int).spec_encode() == b.subrange(pos as int, pos + 34),
    {
        let at = pos as int;
        wire::lemma_u32_written(b, at);
        wire::lemma_u64_written(b, at + 4);
        wire::lemma_u64_written(b, at + 12);
        wire::lemma_byte(b, at + 20);
        wire::lemma_u64_written(b, at + 21);
        wire::lemma_byte(b, at + 29);
        wire::lemma_u32_written(b, at + 30);
        wire::lemma_join(b, at, at + 4, at + 12);
        wire::lemma_join(b, at, at + 12, at + 20);
        wire::lemma_join(b, at, at + 20, at + 21);
        wire::lemma_join(b, at, at + 21, at + 29);
        wire::lemma_join(b, at, at + 29, at + 30);
        wire::lemma_join(b, at, at + 30, at + 34);
    }
}

/// What reading the generic tile that starts at `offset` in `b` gives: the
/// tile's bytes as they were before they were filtered.
///
/// The header is read at `offset`. The pipeline is decoded from the
/// `filter_pipeline_size` bytes behind the header, in the format version
/// that the header states, and made into a chain. The chunks are decoded
/// from the `persisted_size` bytes behind the pipeline, and the chain is
/// undone on them. The error is that of the first step that fails; a part
/// that reaches past the end of `b` is an end of input at its start.
pub open spec fn spec_read_generic_tile(b: Seq<u8>, offset: usize) -> Result<Seq<u8>, Error> {
    match GenericTileHeader::spec_decode(b, offset) {
        Err(e) => Err(e),
        Ok((header, start)) => if start + header.filter_pipeline_size > b.len() {
            Err(Error::UnexpectedEof { field: Field::FilterPipeline, offset: start })
        } else {
            let mid = start + header.filter_pipeline_size;
            match FilterList::spec_decode(b.subrange(start as int, mid), 0, header.version) {
                Err(e) => Err(e),
                Ok((pipeline, used)) => match FilterChain::build_error(pipeline.filters) {
                    Some(e) => Err(e),
                    None => if mid + header.persisted_size > b.len() {
                        Err(Error::UnexpectedEof { field: Field::Payload, offset: mid as usize })
                    } else {
                        match ChunkedData::spec_decode(
                            b.subrange(mid, mid + header.persisted_size),
                            0,
                        ) {
                            Err(e) => Err(e),
                            Ok((chunked, end)) => filters::pipeline_unfiltered_chunks(
                                pipeline.filters,
                                chunked.chunks,
                            ),
                        }
                    },
                },
            }
        },
    }
}

/// Reads the generic tile that starts at `offset` in `bytes`, the stored
/// object as a whole, and gives its bytes as they were before they were
/// filtered.
pub fn read_generic_tile(bytes: &[u8], offset: usize) -> (r: Result<Vec<u8>, Error>)
    ensures
        match r {
            Ok(data) => spec_read_generic_tile(bytes@, offset) == Ok::<Seq<u8>, Error>(data@),
            Err(e) => spec_read_generic_tile(bytes@, offset) == Err::<Seq<u8>, Error>(e),
        },
{
    let (header, start) = GenericTileHeader::decode(bytes, offset)?;
    wire::need(bytes, start, header.filter_pipeline_size as usize, Field::FilterPipeline)?;
    let mid: usize = start + header.filter_pipeline_size as usize;
    let (pipeline, used) = FilterList::decode(slice_subrange(bytes, start, mid), 0, header.version)?;
    let chain = FilterChain::try_from(&pipeline)?;
    if header.persisted_size > (bytes.len() - mid) as u64 {
        return Err(Error::UnexpectedEof { field: Field::Payload, offset: mid });
    }
    let end: usize = mid + header.persisted_size as usize;
    let (mut chunked, last) = ChunkedData::decode(slice_subrange(bytes, mid, end), 0)?;
    proof {
        chain.lemma_models_chunks(pipeline.filters@, chunked@.chunks);
    }
    chain.unfilter_chunks(&mut chunked)
}

} // verus!
