//! The way from a tile's bytes to stored chunks, for the pipelines that can
//! be written: those of empty filters.

use crate::error::Error;
use crate::filters;
use crate::filters::compression;
use crate::filters::compression::Decompressor;
use crate::filters::{FilterChain, FilterType};
use crate::storage::filter::{Filter as StoredFilter, FilterConfig, FilterList};
use crate::storage::tile::{
    Chunk, ChunkView, ChunkedData, CompressionChunkInfo, CompressionChunks, CompressionChunksView,
};
use crate::storage::wire;
use vstd::prelude::*;
use vstd::slice::{slice_subrange, slice_to_vec};

verus! {

/// The chunk that holds `data` as it is.
pub open spec fn plain_chunk(data: Seq<u8>) -> ChunkView {
    ChunkView { original_size: data.len() as u32, metadata: Seq::empty(), data }
}

/// The number of bytes that a chunk holds at most under a pipeline whose
/// largest chunk size is `max_chunk_size`: that size, or as many as a chunk
/// can count where it is 0.
pub open spec fn chunk_limit(max_chunk_size: u32) -> int {
    if max_chunk_size == 0 {
        u32::MAX as int
    } else {
        max_chunk_size as int
    }
}

/// `payload` cut into chunks of `limit` bytes; the last one holds what is
/// left.
pub open spec fn plain_chunks(payload: Seq<u8>, limit: int) -> Seq<ChunkView>
    decreases payload.len(),
{
    if limit <= 0 || payload.len() == 0 {
        Seq::empty()
    } else if payload.len() <= limit {
        seq![plain_chunk(payload)]
    } else {
        seq![plain_chunk(payload.take(limit))] + plain_chunks(payload.skip(limit), limit)
    }
}

/// Whether every one of `filters` is the empty filter.
pub open spec fn all_empty(filters: Seq<StoredFilter>) -> bool {
    forall|i: int|
        0 <= i < filters.len() ==> (#[trigger] filters[i]).filter_type == FilterType::NoFilter
            && filters[i].config == FilterConfig::NoConfig
}

/// The kind of the first of `filters` that is no empty filter, if there is
/// one.
pub open spec fn first_other(filters: Seq<StoredFilter>) -> Option<FilterType>
    decreases filters.len(),
{
    if filters.len() == 0 {
        None
    } else {
        match first_other(filters.drop_last()) {
            Some(kind) => Some(kind),
            None => if filters.last().filter_type == FilterType::NoFilter {
                None
            } else {
                Some(filters.last().filter_type)
            },
        }
    }
}

/// What filtering and chunking `payload` under a pipeline gives: the chunks
/// to store. A pipeline of which no chain can be made gives the error of
/// the chain; one with a filter that cannot be applied gives the kind of
/// the first such filter.
pub open spec fn spec_filter_then_chunk(payload: Seq<u8>, list: crate::storage::filter::FilterListView)
    -> Result<Seq<ChunkView>, Error> {
    match FilterChain::build_error(list.filters) {
        Some(e) => Err(e),
        None => match first_other(list.filters) {
            Some(kind) => Err(Error::UnsupportedFilter { kind }),
            None => Ok(plain_chunks(payload, chunk_limit(list.max_chunk_size))),
        },
    }
}

/// Where no filter is another than the empty one and a chain can be made,
/// all filters are empty filters.
pub proof fn lemma_first_other(filters: Seq<StoredFilter>)
    requires
        first_other(filters) is None,
        filters::last_failure(filters) is None,
    ensures
        all_empty(filters),
    decreases filters.len(),
{
    if filters.len() > 0 {
        lemma_first_other(filters.drop_last());
        assert forall|i: int| 0 <= i < filters.len() implies (#[trigger] filters[i]).filter_type
            == FilterType::NoFilter && filters[i].config == FilterConfig::NoConfig by {
            if i < filters.len() - 1 {
                assert(filters.drop_last()[i] == filters[i]);
            }
        }
    }
}

/// Once a filter is found that is no empty filter, the filters behind it do
/// not matter.
pub proof fn lemma_other_found(filters: Seq<StoredFilter>, k: int)
    requires
        0 <= k <= filters.len(),
        first_other(filters.take(k)) is Some,
    ensures
        first_other(filters) == first_other(filters.take(k)),
    decreases filters.len() - k,
{
    if k < filters.len() {
        assert(filters.take(k + 1).drop_last() =~= filters.take(k));
        lemma_other_found(filters, k + 1);
    } else {
        assert(filters.take(k) =~= filters);
    }
}

/// Undoing a pipeline of empty filters hands the input over as the output.
pub proof fn lemma_empty_pipeline(filters: Seq<StoredFilter>, input: ChunkView, output: ChunkView)
    requires
        filters.len() >= 1,
        all_empty(filters),
    ensures
        filters::pipeline_unfiltered(filters, input, output) == Ok::<
            (ChunkView, ChunkView),
            FilterType,
        >((output, input)),
    decreases filters.len(),
{
    assert(filters[0].filter_type == FilterType::NoFilter);
    if filters.len() > 1 {
        let rest = filters.skip(1);
        assert forall|i: int| 0 <= i < rest.len() implies (#[trigger] rest[i]).filter_type
            == FilterType::NoFilter && rest[i].config == FilterConfig::NoConfig by {
            assert(rest[i] == filters[i + 1]);
        }
        lemma_empty_pipeline(rest, input, output);
    }
}

/// The slices of one chunk and of the chunks behind it are the slices of
/// all of them.
pub proof fn lemma_first_chunk(filters: Seq<StoredFilter>, first: ChunkView, rest: Seq<ChunkView>)
    requires
        filters::pipeline_unfiltered_chunk(filters, first) is Ok,
        filters::pipeline_unfiltered_chunks(filters, rest) is Ok,
    ensures
        filters::pipeline_unfiltered_chunks(filters, seq![first] + rest) == Ok::<Seq<u8>, Error>(
            filters::pipeline_unfiltered_chunk(filters, first)->Ok_0
                + filters::pipeline_unfiltered_chunks(filters, rest)->Ok_0,
        ),
    decreases rest.len(),
{
    let all = seq![first] + rest;
    let head = filters::pipeline_unfiltered_chunk(filters, first)->Ok_0;
    if rest.len() == 0 {
        assert(all.drop_last() =~= Seq::<ChunkView>::empty());
        assert(all.last() == first);
        assert(filters::pipeline_unfiltered_chunks(filters, all.drop_last()) == Ok::<
            Seq<u8>,
            Error,
        >(Seq::empty()));
        assert(filters::pipeline_unfiltered_chunks(filters, rest) == Ok::<Seq<u8>, Error>(
            Seq::empty(),
        ));
        assert(Seq::<u8>::empty() + head =~= head + Seq::<u8>::empty());
    } else {
        assert(all.drop_last() =~= seq![first] + rest.drop_last());
        assert(all.last() == rest.last());
        lemma_first_chunk(filters, first, rest.drop_last());
        let before = filters::pipeline_unfiltered_chunks(filters, rest.drop_last())->Ok_0;
        let last = filters::pipeline_unfiltered_chunk(filters, rest.last())->Ok_0;
        assert((head + before) + last =~= head + (before + last));
    }
}

/// Cutting a payload into chunks under a pipeline of empty filters, and
/// undoing the pipeline on the chunks, gives the payload back.
pub proof fn lemma_plain_round_trip(filters: Seq<StoredFilter>, payload: Seq<u8>, limit: int)
    requires
        filters.len() >= 1,
        all_empty(filters),
        0 < limit <= u32::MAX,
    ensures
        filters::pipeline_unfiltered_chunks(filters, plain_chunks(payload, limit)) == Ok::<
            Seq<u8>,
            Error,
        >(payload),
    decreases payload.len(),
{
    if payload.len() == 0 {
        assert(payload =~= Seq::<u8>::empty());
    } else if payload.len() <= limit {
        let chunk = plain_chunk(payload);
        lemma_empty_pipeline(filters, chunk, ChunkView::empty());
        assert(payload.take(payload.len() as int) =~= payload);
        lemma_first_chunk(filters, chunk, Seq::empty());
        assert(seq![chunk] + Seq::<ChunkView>::empty() =~= seq![chunk]);
        assert(payload + Seq::<u8>::empty() =~= payload);
    } else {
        let head = payload.take(limit);
        let chunk = plain_chunk(head);
        lemma_empty_pipeline(filters, chunk, ChunkView::empty());
        assert(head.take(head.len() as int) =~= head);
        lemma_plain_round_trip(filters, payload.skip(limit), limit);
        lemma_first_chunk(filters, chunk, plain_chunks(payload.skip(limit), limit));
        assert(head + payload.skip(limit) =~= payload);
    }
}

/// Filtering and chunking a payload under a pipeline, and then undoing the
/// pipeline on the chunks, gives the payload back, whatever the payload and
/// the chunk size are.
pub proof fn lemma_round_trip(payload: Seq<u8>, list: crate::storage::filter::FilterListView)
    requires
        spec_filter_then_chunk(payload, list) is Ok,
    ensures
        filters::pipeline_unfiltered_chunks(
            list.filters,
            spec_filter_then_chunk(payload, list)->Ok_0,
        ) == Ok::<Seq<u8>, Error>(payload),
{
    lemma_first_other(list.filters);
    lemma_plain_round_trip(list.filters, payload, chunk_limit(list.max_chunk_size));
}

/// Cuts `payload` into the chunks that are stored for it under the pipeline
/// `list`, each filtered by the filters of the pipeline in their order.
/// Only the empty filter can be applied.
pub fn filter_then_chunk(payload: &[u8], list: &FilterList) -> (r: Result<ChunkedData, Error>)
    ensures
        match r {
            Ok(chunked) => spec_filter_then_chunk(payload@, list@) == Ok::<Seq<ChunkView>, Error>(
                chunked@.chunks,
            ) && chunked@.storable(),
            Err(e) => spec_filter_then_chunk(payload@, list@) == Err::<Seq<ChunkView>, Error>(e),
        },
{
    let chain = FilterChain::try_from(list)?;
    let mut k: usize = 0;
    assert(list.filters@.take(0) =~= Seq::<StoredFilter>::empty());
    while k < list.filters.len()
        invariant
            k <= list.filters@.len(),
            FilterChain::build_error(list.filters@) is None,
            first_other(list.filters@.take(k as int)) is None,
        decreases list.filters@.len() - k,
    {
        proof {
            assert(list.filters@.take(k + 1).drop_last() =~= list.filters@.take(k as int));
        }
        let kind = list.filters[k].filter_type();
        if kind != FilterType::NoFilter {
            proof {
                lemma_other_found(list.filters@, k + 1);
            }
            return Err(Error::UnsupportedFilter { kind });
        }
        k += 1;
    }
    assert(list.filters@.take(k as int) =~= list.filters@);
    let limit: usize = if list.max_chunk_size == 0 {
        u32::MAX as usize
    } else {
        list.max_chunk_size as usize
    };
    let mut chunks: Vec<Chunk> = Vec::new();
    let mut at: usize = 0;
    proof {
        wire::lemma_views_empty::<Chunk>();
    }
    let ghost whole = plain_chunks(payload@, limit as int);
    assert(payload@.skip(0) =~= payload@);
    while at < payload.len()
        invariant
            at <= payload@.len(),
            0 < limit <= u32::MAX,
            whole == plain_chunks(payload@, limit as int),
            wire::views(chunks@) + plain_chunks(payload@.skip(at as int), limit as int) == whole,
            forall|i: int|
                0 <= i < chunks@.len() ==> (#[trigger] chunks@[i])@.metadata.len() <= u32::MAX
                    && chunks@[i]@.data.len() <= u32::MAX,
        decreases payload@.len() - at,
    {
        let left: usize = payload.len() - at;
        let size: usize = if left <= limit {
            left
        } else {
            limit
        };
        let data = slice_to_vec(slice_subrange(payload, at, at + size));
        let chunk = Chunk { original_size: size as u32, metadata: Vec::new(), data };
        proof {
            let rest = payload@.skip(at as int);
            assert(chunk@ == plain_chunk(rest.take(size as int))) by {
                assert(rest.take(size as int) =~= payload@.subrange(at as int, at + size));
            }
            if left <= limit {
                assert(rest.take(size as int) =~= rest);
                assert(payload@.skip(at + size) =~= Seq::<u8>::empty());
                assert(plain_chunks(rest, limit as int) =~= seq![chunk@] + plain_chunks(
                    payload@.skip(at + size),
                    limit as int,
                ));
            } else {
                assert(rest.skip(limit as int) =~= payload@.skip(at + size));
            }
            wire::lemma_views_push(chunks@, chunk);
            assert(wire::views(chunks@).push(chunk@) + plain_chunks(
                payload@.skip(at + size),
                limit as int,
            ) =~= wire::views(chunks@) + (seq![chunk@] + plain_chunks(
                payload@.skip(at + size),
                limit as int,
            )));
        }
        chunks.push(chunk);
        at = at + size;
    }
    proof {
        assert(payload@.skip(at as int) =~= Seq::<u8>::empty());
        assert(wire::views(chunks@) + Seq::<ChunkView>::empty() =~= wire::views(chunks@));
    }
    let num_chunks = chunks.len() as u64;
    Ok(ChunkedData { num_chunks, chunks })
}

/// The framing of a chunk whose metadata and whose data were compressed in
/// one part each.
pub open spec fn single_framing(
    metadata: CompressionChunkInfo,
    data: CompressionChunkInfo,
) -> CompressionChunksView {
    CompressionChunksView { metadata_parts: seq![metadata], data_parts: seq![data] }
}

/// The chunk that a compression filter stores for `chunk`, where `pack`
/// compresses one part: the framing as metadata, and as data the
/// compressed metadata and then the compressed data.
pub open spec fn packed_chunk(pack: spec_fn(Seq<u8>) -> Seq<u8>, chunk: ChunkView) -> ChunkView {
    ChunkView {
        original_size: chunk.original_size,
        metadata: single_framing(
            CompressionChunkInfo {
                uncompressed_size: chunk.metadata.len() as u32,
                compressed_size: pack(chunk.metadata).len() as u32,
            },
            CompressionChunkInfo {
                uncompressed_size: chunk.data.len() as u32,
                compressed_size: pack(chunk.data).len() as u32,
            },
        ).spec_encode(),
        data: pack(chunk.metadata) + pack(chunk.data),
    }
}

/// Decoding the stored framing of two parts gives the two parts.
pub proof fn lemma_single_framing(metadata: CompressionChunkInfo, data: CompressionChunkInfo)
    ensures
        CompressionChunks::spec_decode(single_framing(metadata, data).spec_encode(), 0) == Ok::<
            (CompressionChunksView, usize),
            Error,
        >((single_framing(metadata, data), 24)),
{
    let framing = single_framing(metadata, data);
    let enc = CompressionChunkInfo::encoder();
    let item_bytes = |p: CompressionChunkInfo|
        wire::u32_le(p.uncompressed_size) + wire::u32_le(p.compressed_size);
    let b = framing.spec_encode();
    wire::lemma_u32_read(1);
    wire::lemma_u32_read(metadata.uncompressed_size);
    wire::lemma_u32_read(metadata.compressed_size);
    wire::lemma_u32_read(data.uncompressed_size);
    wire::lemma_u32_read(data.compressed_size);
    assert(seq![metadata].drop_last() =~= Seq::<CompressionChunkInfo>::empty());
    assert(seq![data].drop_last() =~= Seq::<CompressionChunkInfo>::empty());
    assert(wire::spec_concat(seq![metadata], enc) =~= item_bytes(metadata)) by {
        assert(wire::spec_concat(Seq::<CompressionChunkInfo>::empty(), enc) =~= Seq::<u8>::empty());
    }
    assert(wire::spec_concat(seq![data], enc) =~= item_bytes(data)) by {
        assert(wire::spec_concat(Seq::<CompressionChunkInfo>::empty(), enc) =~= Seq::<u8>::empty());
    }
    assert(b =~= wire::u32_le(1) + wire::u32_le(1) + item_bytes(metadata) + item_bytes(data));
    assert(b.len() == 24);
    assert(b.subrange(0, 4) =~= wire::u32_le(1));
    assert(b.subrange(4, 8) =~= wire::u32_le(1));
    assert(b.subrange(8, 12) =~= wire::u32_le(metadata.uncompressed_size));
    assert(b.subrange(12, 16) =~= wire::u32_le(metadata.compressed_size));
    assert(b.subrange(16, 20) =~= wire::u32_le(data.uncompressed_size));
    assert(b.subrange(20, 24) =~= wire::u32_le(data.compressed_size));
    wire::lemma_u32_read_at(b, 0, 1);
    wire::lemma_u32_read_at(b, 4, 1);
    wire::lemma_u32_read_at(b, 8, metadata.uncompressed_size);
    wire::lemma_u32_read_at(b, 12, metadata.compressed_size);
    wire::lemma_u32_read_at(b, 16, data.uncompressed_size);
    wire::lemma_u32_read_at(b, 20, data.compressed_size);
    let item = CompressionChunkInfo::decoder(b);
    assert(item(8usize) == Ok::<(CompressionChunkInfo, usize), Error>((metadata, 16usize)));
    assert(item(16usize) == Ok::<(CompressionChunkInfo, usize), Error>((data, 24usize)));
    assert(wire::spec_repeat(item, 8, 0) == Ok::<(Seq<CompressionChunkInfo>, usize), Error>(
        (Seq::empty(), 8usize),
    ));
    assert(wire::spec_repeat(item, 8, 1) == Ok::<(Seq<CompressionChunkInfo>, usize), Error>(
        (seq![metadata], 16usize),
    )) by {
        assert(Seq::<CompressionChunkInfo>::empty().push(metadata) =~= seq![metadata]);
    }
    assert(wire::spec_repeat(item, 16, 0) == Ok::<(Seq<CompressionChunkInfo>, usize), Error>(
        (Seq::empty(), 16usize),
    ));
    assert(wire::spec_repeat(item, 16, 1) == Ok::<(Seq<CompressionChunkInfo>, usize), Error>(
        (seq![data], 24usize),
    )) by {
        assert(Seq::<CompressionChunkInfo>::empty().push(data) =~= seq![data]);
    }
}

/// Where a decompressor undoes what `pack` does to the metadata and to the
/// data of a chunk, undoing the compression of the chunk that is stored for
/// it gives the metadata and the data back.
pub proof fn lemma_packed_round_trip<D: Decompressor>(
    codec: &D,
    pack: spec_fn(Seq<u8>) -> Seq<u8>,
    chunk: ChunkView,
    output: ChunkView,
)
    requires
        chunk.metadata.len() <= u32::MAX,
        chunk.data.len() <= u32::MAX,
        pack(chunk.metadata).len() <= u32::MAX,
        pack(chunk.data).len() <= u32::MAX,
        codec.decompressed(pack(chunk.metadata), chunk.metadata.len()) == Some(chunk.metadata),
        codec.decompressed(pack(chunk.data), chunk.data.len()) == Some(chunk.data),
    ensures
        compression::unfiltered_with(codec, packed_chunk(pack, chunk), output) == Some(
            (
                packed_chunk(pack, chunk),
                ChunkView {
                    original_size: output.original_size,
                    metadata: chunk.metadata,
                    data: chunk.data,
                },
            ),
        ),
{
    let stored = packed_chunk(pack, chunk);
    let meta_part = CompressionChunkInfo {
        uncompressed_size: chunk.metadata.len() as u32,
        compressed_size: pack(chunk.metadata).len() as u32,
    };
    let data_part = CompressionChunkInfo {
        uncompressed_size: chunk.data.len() as u32,
        compressed_size: pack(chunk.data).len() as u32,
    };
    lemma_single_framing(meta_part, data_part);
    let mid = pack(chunk.metadata).len();
    let end = mid + pack(chunk.data).len();
    assert(stored.data.subrange(0, mid as int) =~= pack(chunk.metadata));
    assert(stored.data.subrange(mid as int, end as int) =~= pack(chunk.data));
    assert(seq![meta_part].drop_last() =~= Seq::<CompressionChunkInfo>::empty());
    assert(seq![data_part].drop_last() =~= Seq::<CompressionChunkInfo>::empty());
    assert(compression::spec_parts(codec, stored.data, 0, Seq::empty()) == Some(
        (Seq::<u8>::empty(), 0nat),
    ));
    assert(compression::spec_parts(codec, stored.data, 0, seq![meta_part]) == Some(
        (chunk.metadata, mid),
    )) by {
        assert(Seq::<u8>::empty() + chunk.metadata =~= chunk.metadata);
    }
    assert(compression::spec_parts(codec, stored.data, mid, Seq::empty()) == Some(
        (Seq::<u8>::empty(), mid),
    ));
    assert(compression::spec_parts(codec, stored.data, mid, seq![data_part]) == Some(
        (chunk.data, end),
    )) by {
        assert(Seq::<u8>::empty() + chunk.data =~= chunk.data);
    }
}

} // verus!
