//! The filters that were applied to a tile's chunks, and the chain that
//! undoes them.

use crate::error::Error;
use crate::storage::filter::{Filter as StoredFilter, FilterConfig, FilterList};
use crate::storage::tile::{Chunk, ChunkView, ChunkedData};
use crate::storage::wire;
use vstd::prelude::*;
use vstd::std_specs::convert::FromSpecImpl;

pub mod compression;
pub mod compressors;
pub mod empty;
pub mod gzip;
pub mod lz4;
pub mod write;
pub mod zstd;

verus! {

/// The kind of a filter, as its tag byte names it.
#[derive(Clone, Copy, Debug, PartialEq, Eq, Structural)]
pub enum FilterType {
    NoFilter,
    GZip,
    Zstd,
    LZ4,
    Rle,
    BZip2,
    DoubleDelta,
    BitWidthReduction,
    BitShuffle,
    ByteShuffle,
    PositiveDelta,
    Encryption,
    ChecksumMD5,
    ChecksumSHA256,
    Dictionary,
    ScaleFloat,
    Xor,
    Deprecated,
    WebP,
    Delta,
    Invalid,
}

impl FilterType {
    /// The tag byte of a variant; 255 for `Invalid`.
    pub open spec fn code(self) -> u8 {
        match self {
            FilterType::NoFilter => 0,
            FilterType::GZip => 1,
            FilterType::Zstd => 2,
            FilterType::LZ4 => 3,
            FilterType::Rle => 4,
            FilterType::BZip2 => 5,
            FilterType::DoubleDelta => 6,
            FilterType::BitWidthReduction => 7,
            FilterType::BitShuffle => 8,
            FilterType::ByteShuffle => 9,
            FilterType::PositiveDelta => 10,
            FilterType::Encryption => 11,
            FilterType::ChecksumMD5 => 12,
            FilterType::ChecksumSHA256 => 13,
            FilterType::Dictionary => 14,
            FilterType::ScaleFloat => 15,
            FilterType::Xor => 16,
            FilterType::Deprecated => 17,
            FilterType::WebP => 18,
            FilterType::Delta => 19,
            FilterType::Invalid => 255,
        }
    }

    /// The variant that a tag byte names.
    pub open spec fn of_code(b: u8) -> FilterType {
        if b == 0 {
            FilterType::NoFilter
        } else if b == 1 {
            FilterType::GZip
        } else if b == 2 {
            FilterType::Zstd
        } else if b == 3 {
            FilterType::LZ4
        } else if b == 4 {
            FilterType::Rle
        } else if b == 5 {
            FilterType::BZip2
        } else if b == 6 {
            FilterType::DoubleDelta
        } else if b == 7 {
            FilterType::BitWidthReduction
        } else if b == 8 {
            FilterType::BitShuffle
        } else if b == 9 {
            FilterType::ByteShuffle
        } else if b == 10 {
            FilterType::PositiveDelta
        } else if b == 11 {
            FilterType::Encryption
        } else if b == 12 {
            FilterType::ChecksumMD5
        } else if b == 13 {
            FilterType::ChecksumSHA256
        } else if b == 14 {
            FilterType::Dictionary
        } else if b == 15 {
            FilterType::ScaleFloat
        } else if b == 16 {
            FilterType::Xor
        } else if b == 17 {
            FilterType::Deprecated
        } else if b == 18 {
            FilterType::WebP
        } else if b == 19 {
            FilterType::Delta
        } else {
            FilterType::Invalid
        }
    }

    /// The tag byte of the variant.
    pub fn to_u8(self) -> (b: u8)
        ensures
            b == self.code(),
    {
        match self {
            FilterType::NoFilter => 0,
            FilterType::GZip => 1,
            FilterType::Zstd => 2,
            FilterType::LZ4 => 3,
            FilterType::Rle => 4,
            FilterType::BZip2 => 5,
            FilterType::DoubleDelta => 6,
            FilterType::BitWidthReduction => 7,
            FilterType::BitShuffle => 8,
            FilterType::ByteShuffle => 9,
            FilterType::PositiveDelta => 10,
            FilterType::Encryption => 11,
            FilterType::ChecksumMD5 => 12,
            FilterType::ChecksumSHA256 => 13,
            FilterType::Dictionary => 14,
            FilterType::ScaleFloat => 15,
            FilterType::Xor => 16,
            FilterType::Deprecated => 17,
            FilterType::WebP => 18,
            FilterType::Delta => 19,
            FilterType::Invalid => 255,
        }
    }

    /// A byte and the variant it names determine each other, but for the
    /// bytes that name none: those all give `Invalid`.
    pub proof fn code_of_code(b: u8)
        ensures
            b <= 19 ==> Self::of_code(b) != FilterType::Invalid && Self::of_code(b).code() == b,
            b > 19 ==> Self::of_code(b) == FilterType::Invalid,
    {
    }

    /// Every variant is the one that its own tag byte names.
    pub proof fn of_code_code(t: FilterType)
        ensures
            Self::of_code(t.code()) == t,
            t != FilterType::Invalid ==> t.code() <= 19,
    {
    }
}

impl From<u8> for FilterType {
    fn from(orig: u8) -> (t: FilterType) {
        match orig {
            0 => FilterType::NoFilter,
            1 => FilterType::GZip,
            2 => FilterType::Zstd,
            3 => FilterType::LZ4,
            4 => FilterType::Rle,
            5 => FilterType::BZip2,
            6 => FilterType::DoubleDelta,
            7 => FilterType::BitWidthReduction,
            8 => FilterType::BitShuffle,
            9 => FilterType::ByteShuffle,
            10 => FilterType::PositiveDelta,
            11 => FilterType::Encryption,
            12 => FilterType::ChecksumMD5,
            13 => FilterType::ChecksumSHA256,
            14 => FilterType::Dictionary,
            15 => FilterType::ScaleFloat,
            16 => FilterType::Xor,
            17 => FilterType::Deprecated,
            18 => FilterType::WebP,
            19 => FilterType::Delta,
            _ => FilterType::Invalid,
        }
    }
}

impl FromSpecImpl<u8> for FilterType {
    open spec fn obeys_from_spec() -> bool {
        true
    }

    open spec fn from_spec(orig: u8) -> FilterType {
        FilterType::of_code(orig)
    }
}

/// One filter that can be undone.
pub trait Filter {
    /// The kind of the filter.
    spec fn kind(&self) -> FilterType;

    /// What undoing the filter makes of an input chunk and an output chunk:
    /// the two chunks afterwards, or nothing where the filter rejects the
    /// input.
    spec fn unfiltered(&self, input: ChunkView, output: ChunkView) -> Option<(ChunkView, ChunkView)>;

    /// The kind of the filter.
    fn filter_type(&self) -> (kind: FilterType)
        ensures
            kind == self.kind(),
    ;

    /// Undoes the filter on `input`, into `output`.
    fn unfilter(&self, input: &mut Chunk, output: &mut Chunk) -> (r: Result<(), Error>)
        ensures
            match r {
                Ok(()) => self.unfiltered(old(input)@, old(output)@) == Some(
                    (final(input)@, final(output)@),
                ),
                Err(e) => self.unfiltered(old(input)@, old(output)@) is None && e
                    == (Error::FilterFailure { kind: self.kind(), chunk_index: 0 }),
            },
    ;
}

/// The filters of a pipeline, ready to be undone. The head is the filter
/// that was applied first on writing; `next` holds the filters that were
/// applied after it.
pub struct FilterChain {
    pub filter: Box<dyn Filter>,
    pub next: Option<Box<FilterChain>>,
}

impl FilterChain {
    /// What the head alone makes of an input chunk and an output chunk, with
    /// the kind of the head where it rejects the input.
    pub open spec fn head_unfiltered(&self, input: ChunkView, output: ChunkView) -> Result<
        (ChunkView, ChunkView),
        FilterType,
    > {
        match self.filter.unfiltered(input, output) {
            Some(chunks) => Ok(chunks),
            None => Err(self.filter.kind()),
        }
    }

    /// What undoing the whole chain makes of an input chunk and an output
    /// chunk. The filter applied last is undone first: the rest of the chain
    /// works on the two chunks as they are given, then the two change roles
    /// and the head works on them. Where a filter rejects its input, the
    /// result is the kind of that filter.
    pub open spec fn unfiltered(&self, input: ChunkView, output: ChunkView) -> Result<
        (ChunkView, ChunkView),
        FilterType,
    >
        decreases self,
    {
        match self.next {
            None => self.head_unfiltered(input, output),
            Some(next) => match next.unfiltered(input, output) {
                Err(kind) => Err(kind),
                Ok((rest_input, rest_output)) => self.head_unfiltered(rest_output, rest_input),
            },
        }
    }

    /// Undoes the chain on `input`, into `output`.
    pub fn unfilter(&self, input: &mut Chunk, output: &mut Chunk) -> (r: Result<(), Error>)
        ensures
            match r {
                Ok(()) => self.unfiltered(old(input)@, old(output)@) == Ok::<
                    (ChunkView, ChunkView),
                    FilterType,
                >((final(input)@, final(output)@)),
                Err(e) => self.unfiltered(old(input)@, old(output)@) matches Err(kind) && e == (
                Error::FilterFailure { kind, chunk_index: 0 }),
            },
        decreases self,
    {
        match &self.next {
            None => self.filter.unfilter(input, output),
            Some(next) => {
                next.unfilter(input, output)?;
                std::mem::swap(output, input);
                self.filter.unfilter(input, output)
            },
        }
    }

    /// What undoing the chain on one stored chunk gives: the bytes of the
    /// chunk's slice of the tile. The chain works on the chunk and an empty
    /// output; the slice is the output's data, cut to the original size that
    /// the stored chunk states. An error names the kind of the filter that
    /// rejected its input; where the output holds fewer bytes than the
    /// original size, it names the head of the chain.
    pub open spec fn unfiltered_chunk(&self, chunk: ChunkView) -> Result<Seq<u8>, FilterType> {
        match self.unfiltered(chunk, ChunkView::empty()) {
            Err(kind) => Err(kind),
            Ok((input, output)) => if output.data.len() < chunk.original_size {
                Err(self.filter.kind())
            } else {
                Ok(output.data.take(chunk.original_size as int))
            },
        }
    }

    /// What undoing the chain on the chunks of a tile gives: the slices of
    /// the chunks, one behind the other in the order of the chunks, or the
    /// failure of the first chunk that fails, with its index.
    pub open spec fn unfiltered_chunks(&self, chunks: Seq<ChunkView>) -> Result<Seq<u8>, Error>
        decreases chunks.len(),
    {
        if chunks.len() == 0 {
            Ok(Seq::empty())
        } else {
            match self.unfiltered_chunks(chunks.drop_last()) {
                Err(e) => Err(e),
                Ok(bytes) => match self.unfiltered_chunk(chunks.last()) {
                    Err(kind) => Err(
                        Error::FilterFailure { kind, chunk_index: (chunks.len() - 1) as usize },
                    ),
                    Ok(slice) => Ok(bytes + slice),
                },
            }
        }
    }

    /// Once a chunk has failed, the chunks behind it do not help.
    pub proof fn lemma_chunks_fail(&self, chunks: Seq<ChunkView>, k: int)
        requires
            0 <= k <= chunks.len(),
            self.unfiltered_chunks(chunks.take(k)) is Err,
        ensures
            self.unfiltered_chunks(chunks) == self.unfiltered_chunks(chunks.take(k)),
        decreases chunks.len() - k,
    {
        if k < chunks.len() {
            assert(chunks.take(k + 1).drop_last() =~= chunks.take(k));
            self.lemma_chunks_fail(chunks, k + 1);
        } else {
            assert(chunks.take(k) =~= chunks);
        }
    }

    /// What the chain leaves in a stored chunk that it was undone on: what
    /// became of the input.
    pub open spec fn left_over(&self, chunk: ChunkView) -> ChunkView {
        match self.unfiltered(chunk, ChunkView::empty()) {
            Ok((input, output)) => input,
            Err(kind) => chunk,
        }
    }

    /// Undoes the chain on every chunk of a tile and puts the slices
    /// together. The chunks are used up: afterwards each holds what the
    /// filters left in it.
    pub fn unfilter_chunks(&self, chunks: &mut ChunkedData) -> (r: Result<Vec<u8>, Error>)
        ensures
            final(chunks).num_chunks == old(chunks).num_chunks,
            final(chunks).chunks@.len() == old(chunks).chunks@.len(),
            match r {
                Ok(bytes) => self.unfiltered_chunks(old(chunks)@.chunks) == Ok::<Seq<u8>, Error>(
                    bytes@,
                ) && forall|i: int|
                    0 <= i < old(chunks).chunks@.len() ==> final(chunks).chunks@[i]@
                        == self.left_over(#[trigger] old(chunks).chunks@[i]@),
                Err(e) => self.unfiltered_chunks(old(chunks)@.chunks) == Err::<Seq<u8>, Error>(e),
            },
    {
        let ghost stored = chunks@.chunks;
        let n: usize = chunks.chunks.len();
        let mut bytes: Vec<u8> = Vec::new();
        let mut i: usize = 0;
        while i < n
            invariant
                i <= n,
                n == chunks.chunks@.len(),
                n == stored.len(),
                n == old(chunks).chunks@.len(),
                stored == old(chunks)@.chunks,
                chunks.num_chunks == old(chunks).num_chunks,
                forall|j: int| i <= j < n ==> (#[trigger] chunks.chunks@[j])@ == stored[j],
                forall|j: int|
                    0 <= j < i ==> (#[trigger] chunks.chunks@[j])@ == self.left_over(stored[j]),
                forall|j: int| 0 <= j < n ==> stored[j] == #[trigger] old(chunks).chunks@[j]@,
                self.unfiltered_chunks(stored.take(i as int)) == Ok::<Seq<u8>, Error>(bytes@),
            decreases n - i,
        {
            proof {
                assert(stored.take(i + 1).drop_last() =~= stored.take(i as int));
                assert(stored.take(i + 1).last() == stored[i as int]);
            }
            let original_size: usize = chunks.chunks[i].original_size as usize;
            let mut output = Chunk::default();
            let ghost before = chunks.chunks@;
            let undone = self.unfilter(&mut chunks.chunks[i], &mut output);
            assert(forall|j: int| 0 <= j < n && j != i ==> chunks.chunks@[j] == before[j]);
            match undone {
                Err(e) => {
                    let kind = match e {
                        Error::FilterFailure { kind, .. } => kind,
                        _ => self.filter.filter_type(),
                    };
                    proof {
                        self.lemma_chunks_fail(stored, i + 1);
                    }
                    return Err(Error::FilterFailure { kind, chunk_index: i });
                },
                Ok(()) => {},
            }
            if output.data.len() < original_size {
                proof {
                    self.lemma_chunks_fail(stored, i + 1);
                }
                return Err(Error::FilterFailure { kind: self.filter.filter_type(), chunk_index: i });
            }
            output.data.truncate(original_size);
            bytes.append(&mut output.data);
            i += 1;
        }
        assert(stored.take(i as int) =~= stored);
        Ok(bytes)
    }
}

/// Whether a stored filter can be undone by this library, and if not, why:
/// its kind is none of the four that can, or its configuration does not fit
/// its kind.
pub open spec fn instantiable(f: StoredFilter) -> Result<(), Error> {
    match f.filter_type {
        FilterType::NoFilter => if f.config == FilterConfig::NoConfig {
            Ok(())
        } else {
            Err(Error::InvalidFilterConfig { kind: FilterType::NoFilter })
        },
        FilterType::GZip => if gzip::GZipFilter::accepts(f.config) {
            Ok(())
        } else {
            Err(Error::InvalidFilterConfig { kind: FilterType::GZip })
        },
        FilterType::LZ4 => if lz4::LZ4Filter::accepts(f.config) {
            Ok(())
        } else {
            Err(Error::InvalidFilterConfig { kind: FilterType::LZ4 })
        },
        FilterType::Zstd => if zstd::ZstdFilter::accepts(f.config) {
            Ok(())
        } else {
            Err(Error::InvalidFilterConfig { kind: FilterType::Zstd })
        },
        kind => Err(Error::UnsupportedFilter { kind }),
    }
}

/// What undoing a stored filter that can be undone makes of an input chunk
/// and an output chunk: what the filter of its kind does that its
/// configuration describes.
pub open spec fn instance_unfiltered(f: StoredFilter, input: ChunkView, output: ChunkView) -> Option<
    (ChunkView, ChunkView),
> {
    match f.filter_type {
        FilterType::NoFilter => (empty::EmptyFilter {  }).unfiltered(input, output),
        FilterType::GZip => (gzip::GZipFilter {
            level: gzip::GZipFilter::level_of(f.config),
        }).unfiltered(input, output),
        FilterType::LZ4 => (lz4::LZ4Filter { level: f.config->compression_level }).unfiltered(
            input,
            output,
        ),
        FilterType::Zstd => (zstd::ZstdFilter {
            level: zstd::ZstdFilter::level_of(f.config),
        }).unfiltered(input, output),
        _ => None,
    }
}

/// Whether `filter` is the filter that the stored filter `f` describes.
pub open spec fn instance_of(filter: &Box<dyn Filter>, f: StoredFilter) -> bool {
    &&& filter.kind() == f.filter_type
    &&& forall|input: ChunkView, output: ChunkView| #[trigger]
        filter.unfiltered(input, output) == instance_unfiltered(f, input, output)
}

/// The error of the last stored filter that cannot be undone, if there is
/// one.
pub open spec fn last_failure(filters: Seq<StoredFilter>) -> Option<Error>
    decreases filters.len(),
{
    if filters.len() == 0 {
        None
    } else {
        match instantiable(filters.last()) {
            Err(e) => Some(e),
            Ok(()) => last_failure(filters.drop_last()),
        }
    }
}

/// Where the filters from `k` on can all be undone, the last failure lies
/// before `k`.
pub proof fn lemma_last_failure(filters: Seq<StoredFilter>, k: int)
    requires
        0 <= k <= filters.len(),
        forall|j: int| k <= j < filters.len() ==> instantiable(#[trigger] filters[j]) is Ok,
    ensures
        last_failure(filters) == last_failure(filters.take(k)),
    decreases filters.len() - k,
{
    if k < filters.len() {
        let shorter = filters.drop_last();
        assert(shorter.take(k) =~= filters.take(k));
        lemma_last_failure(shorter, k);
    } else {
        assert(filters.take(k) =~= filters);
    }
}

impl FilterChain {
    /// Whether the chain holds the filters that `filters` describe, in their
    /// order.
    pub open spec fn models(&self, filters: Seq<StoredFilter>) -> bool
        decreases filters.len(),
    {
        &&& filters.len() >= 1
        &&& instance_of(&self.filter, filters[0])
        &&& match self.next {
            None => filters.len() == 1,
            Some(next) => filters.len() > 1 && next.models(filters.skip(1)),
        }
    }

    /// What making a chain of a pipeline gives: an error where the pipeline
    /// is empty, or else where one of its filters cannot be undone; of
    /// several such, the error of the last.
    pub open spec fn build_error(filters: Seq<StoredFilter>) -> Option<Error> {
        if filters.len() == 0 {
            Some(Error::EmptyPipeline)
        } else {
            last_failure(filters)
        }
    }

    /// The chain whose head is the filter that the stored filter `f`
    /// describes (the empty filter, or one of the compression filters for
    /// zlib, LZ4 and Zstandard), before the filters of `next`.
    pub fn link(f: &StoredFilter, next: Option<Box<FilterChain>>) -> (r: Result<FilterChain, Error>)
        ensures
            match r {
                Ok(chain) => instantiable(*f) is Ok && instance_of(&chain.filter, *f) && chain.next
                    == next,
                Err(e) => instantiable(*f) == Err::<(), Error>(e),
            },
    {
        match f.filter_type() {
            FilterType::NoFilter => {
                let filter = empty::EmptyFilter::from_config(f.config())?;
                Ok(FilterChain { filter: Box::new(filter), next })
            },
            FilterType::GZip => {
                let filter = gzip::GZipFilter::from_config(f.config())?;
                Ok(FilterChain { filter: Box::new(filter), next })
            },
            FilterType::LZ4 => {
                let filter = lz4::LZ4Filter::from_config(f.config())?;
                Ok(FilterChain { filter: Box::new(filter), next })
            },
            FilterType::Zstd => {
                let filter = zstd::ZstdFilter::from_config(f.config())?;
                Ok(FilterChain { filter: Box::new(filter), next })
            },
            kind => Err(Error::UnsupportedFilter { kind }),
        }
    }

    /// The chain of the filters of a pipeline. The filters are made from the
    /// last to the first, each put before the chain made so far, so that the
    /// head is the filter applied first on writing.
    pub fn try_from(list: &FilterList) -> (r: Result<Box<FilterChain>, Error>)
        ensures
            match r {
                Ok(chain) => Self::build_error(list.filters@) is None && chain.models(
                    list.filters@,
                ),
                Err(e) => Self::build_error(list.filters@) == Some(e),
            },
    {
        let filters = list.filters();
        let ghost all = list.filters@;
        let mut chain: Option<Box<FilterChain>> = None;
        let mut i: usize = filters.len();
        while i > 0
            invariant
                i <= all.len(),
                filters@ == all,
                all == list.filters@,
                forall|j: int| i <= j < all.len() ==> instantiable(#[trigger] all[j]) is Ok,
                match chain {
                    None => i == all.len(),
                    Some(built) => i < all.len() && built.models(all.skip(i as int)),
                },
            decreases i,
        {
            i -= 1;
            let link = match Self::link(&filters[i], chain) {
                Ok(link) => link,
                Err(e) => {
                    proof {
                        lemma_last_failure(all, i + 1);
                        assert(all.take(i + 1).last() == all[i as int]);
                        assert(last_failure(all.take(i + 1)) == Some(e));
                    }
                    return Err(e);
                },
            };
            proof {
                assert(all.skip(i as int)[0] == all[i as int]);
                assert(all.skip(i as int).skip(1) =~= all.skip(i + 1));
                assert(link.models(all.skip(i as int)));
            }
            chain = Some(Box::new(link));
        }
        match chain {
            Some(built) => {
                proof {
                    lemma_last_failure(all, 0);
                    assert(all.skip(0) =~= all);
                }
                Ok(built)
            },
            None => Err(Error::EmptyPipeline),
        }
    }
}

/// What the filter that a stored filter describes makes of an input chunk
/// and an output chunk, with its kind where it rejects the input.
pub open spec fn stored_unfiltered(f: StoredFilter, input: ChunkView, output: ChunkView) -> Result<
    (ChunkView, ChunkView),
    FilterType,
> {
    match instance_unfiltered(f, input, output) {
        Some(chunks) => Ok(chunks),
        None => Err(f.filter_type),
    }
}

/// What undoing the filters of a pipeline makes of an input chunk and an
/// output chunk. The filters are undone from the last to the first; between
/// two of them the chunks change roles.
pub open spec fn pipeline_unfiltered(
    filters: Seq<StoredFilter>,
    input: ChunkView,
    output: ChunkView,
) -> Result<(ChunkView, ChunkView), FilterType>
    decreases filters.len(),
{
    if filters.len() == 0 {
        Ok((input, output))
    } else if filters.len() == 1 {
        stored_unfiltered(filters[0], input, output)
    } else {
        match pipeline_unfiltered(filters.skip(1), input, output) {
            Err(kind) => Err(kind),
            Ok((rest_input, rest_output)) => stored_unfiltered(filters[0], rest_output, rest_input),
        }
    }
}

/// What undoing the filters of a pipeline on one stored chunk gives: the
/// output's data, cut to the original size that the stored chunk states.
pub open spec fn pipeline_unfiltered_chunk(filters: Seq<StoredFilter>, chunk: ChunkView) -> Result<
    Seq<u8>,
    FilterType,
> {
    match pipeline_unfiltered(filters, chunk, ChunkView::empty()) {
        Err(kind) => Err(kind),
        Ok((input, output)) => if output.data.len() < chunk.original_size {
            Err(filters[0].filter_type)
        } else {
            Ok(output.data.take(chunk.original_size as int))
        },
    }
}

/// What undoing the filters of a pipeline on the chunks of a tile gives: the
/// slices of the chunks, one behind the other, or the failure of the first
/// chunk that fails, with its index.
pub open spec fn pipeline_unfiltered_chunks(
    filters: Seq<StoredFilter>,
    chunks: Seq<ChunkView>,
) -> Result<Seq<u8>, Error>
    decreases chunks.len(),
{
    if chunks.len() == 0 {
        Ok(Seq::empty())
    } else {
        match pipeline_unfiltered_chunks(filters, chunks.drop_last()) {
            Err(e) => Err(e),
            Ok(bytes) => match pipeline_unfiltered_chunk(filters, chunks.last()) {
                Err(kind) => Err(
                    Error::FilterFailure { kind, chunk_index: (chunks.len() - 1) as usize },
                ),
                Ok(slice) => Ok(bytes + slice),
            },
        }
    }
}

impl FilterChain {
    /// A chain made of a pipeline does to two chunks what the pipeline says.
    pub proof fn lemma_models_unfiltered(
        &self,
        filters: Seq<StoredFilter>,
        input: ChunkView,
        output: ChunkView,
    )
        requires
            self.models(filters),
        ensures
            self.unfiltered(input, output) == pipeline_unfiltered(filters, input, output),
        decreases filters.len(),
    {
        match self.next {
            None => {},
            Some(next) => {
                next.lemma_models_unfiltered(filters.skip(1), input, output);
            },
        }
    }

    /// A chain made of a pipeline does to the chunks of a tile what the
    /// pipeline says.
    pub proof fn lemma_models_chunks(&self, filters: Seq<StoredFilter>, chunks: Seq<ChunkView>)
        requires
            self.models(filters),
        ensures
            self.unfiltered_chunks(chunks) == pipeline_unfiltered_chunks(filters, chunks),
        decreases chunks.len(),
    {
        if chunks.len() > 0 {
            self.lemma_models_chunks(filters, chunks.drop_last());
            self.lemma_models_unfiltered(filters, chunks.last(), ChunkView::empty());
        }
    }
}

} // verus!
