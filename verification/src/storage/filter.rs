//! The stored description of a filter and of a filter pipeline.
//!
//! A filter is stored as its kind (one byte), the length of its metadata
//! (four bytes) and a configuration whose shape its kind decides. A pipeline
//! is stored as the largest chunk size (four bytes), the number of filters
//! (four bytes) and the filters in the order in which they were applied.

use crate::error::{Error, Field};
use crate::filters::FilterType;
use crate::storage::wire;
use vstd::prelude::*;

verus! {

/// Whether a filter of this kind is stored with a compressor's configuration.
pub fn is_compression_filter(ftype: FilterType) -> (b: bool)
    ensures
        b == (ftype == FilterType::GZip || ftype == FilterType::Zstd || ftype == FilterType::LZ4
            || ftype == FilterType::Rle || ftype == FilterType::BZip2 || ftype
            == FilterType::Delta || ftype == FilterType::DoubleDelta || ftype
            == FilterType::Dictionary),
{
    match ftype {
        FilterType::GZip
        | FilterType::Zstd
        | FilterType::LZ4
        | FilterType::Rle
        | FilterType::BZip2
        | FilterType::Delta
        | FilterType::DoubleDelta
        | FilterType::Dictionary => true,
        _ => false,
    }
}

/// Whether a filter of this kind is stored with a window size, as the
/// bit-width reduction is.
pub fn is_bit_width_reduction_filter(ftype: FilterType) -> (b: bool)
    ensures
        b == (ftype == FilterType::BitWidthReduction),
{
    ftype == FilterType::BitWidthReduction
}

/// Whether a filter of this kind is stored with a window size, as the
/// positive delta is.
pub fn is_positive_delta_filter(ftype: FilterType) -> (b: bool)
    ensures
        b == (ftype == FilterType::PositiveDelta),
{
    ftype == FilterType::PositiveDelta
}

/// Whether a filter of this kind is stored with the parameters of a float
/// scaling.
pub fn is_scale_float_filter(ftype: FilterType) -> (b: bool)
    ensures
        b == (ftype == FilterType::ScaleFloat),
{
    ftype == FilterType::ScaleFloat
}

/// Whether a filter of this kind is stored with the parameters of an image
/// codec.
pub fn is_webp_filter(ftype: FilterType) -> (b: bool)
    ensures
        b == (ftype == FilterType::WebP),
{
    ftype == FilterType::WebP
}

/// Whether a filter of this kind is stored without a configuration.
pub fn is_no_config_filter(ftype: FilterType) -> (b: bool)
    ensures
        b == (FilterConfig::shape_of(ftype) == ConfigShape::Nothing),
{
    !(is_compression_filter(ftype) || is_bit_width_reduction_filter(ftype)
        || is_positive_delta_filter(ftype) || is_scale_float_filter(ftype) || is_webp_filter(
        ftype,
    ))
}

/// Whether the configuration of such a filter, written in this format
/// version, ends with the type that the data is to be read as.
pub fn has_reinterpret_type(version: u32, filter_type: FilterType) -> (b: bool)
    ensures
        b == FilterConfig::reinterprets(version, filter_type),
{
    if version >= 19 && filter_type == FilterType::Delta {
        return true;
    }
    if version >= 20 && filter_type == FilterType::DoubleDelta {
        return true;
    }
    false
}

/// The five shapes that a stored configuration can have, and none.
#[derive(Clone, Copy, Debug, PartialEq, Eq, Structural)]
pub enum ConfigShape {
    Compression,
    BitWidthReduction,
    PositiveDelta,
    ScaleFloat,
    WebP,
    Nothing,
}

/// The configuration stored with a filter. The floating-point parameters are
/// held as the bits they are stored as.
#[derive(Clone, Copy, Debug, PartialEq, Eq)]
pub enum FilterConfig {
    Compression { compressor_type: FilterType, compression_level: i32, reinterpret_type: Option<u8> },
    BitWidthReduction { max_window_size: u32 },
    PositiveDelta { max_window_size: u32 },
    ScaleFloat { scale_bits: u64, offset_bits: u64, byte_width: u64 },
    WebP { quality_bits: u32, format: u8, lossless: u8, y_extent: u16, x_extent: u16 },
    NoConfig,
}

impl FilterConfig {
    /// The shape of the configuration that is stored with a filter of a kind.
    pub open spec fn shape_of(kind: FilterType) -> ConfigShape {
        match kind {
            FilterType::GZip
            | FilterType::Zstd
            | FilterType::LZ4
            | FilterType::Rle
            | FilterType::BZip2
            | FilterType::Delta
            | FilterType::DoubleDelta
            | FilterType::Dictionary => ConfigShape::Compression,
            FilterType::BitWidthReduction => ConfigShape::BitWidthReduction,
            FilterType::PositiveDelta => ConfigShape::PositiveDelta,
            FilterType::ScaleFloat => ConfigShape::ScaleFloat,
            FilterType::WebP => ConfigShape::WebP,
            _ => ConfigShape::Nothing,
        }
    }

    /// Whether a compressor's configuration holds a reinterpretation type.
    pub open spec fn reinterprets(version: u32, kind: FilterType) -> bool {
        (version >= 19 && kind == FilterType::Delta) || (version >= 20 && kind
            == FilterType::DoubleDelta)
    }

    /// The number of bytes that the configuration of such a filter takes.
    pub open spec fn wire_len(version: u32, kind: FilterType) -> nat {
        match Self::shape_of(kind) {
            ConfigShape::Compression => if Self::reinterprets(version, kind) {
                6
            } else {
                5
            },
            ConfigShape::BitWidthReduction => 4,
            ConfigShape::PositiveDelta => 4,
            ConfigShape::ScaleFloat => 24,
            ConfigShape::WebP => 10,
            ConfigShape::Nothing => 0,
        }
    }

    /// The configuration that the bytes of `b` at `at` hold for a filter of
    /// `kind`, where enough bytes are there.
    pub open spec fn at(b: Seq<u8>, at: int, version: u32, kind: FilterType) -> FilterConfig {
        match Self::shape_of(kind) {
            ConfigShape::Compression => FilterConfig::Compression {
                compressor_type: FilterType::of_code(b[at]),
                compression_level: wire::as_signed(wire::le_u32(b, at + 1)),
                reinterpret_type: if Self::reinterprets(version, kind) {
                    Some(b[at + 5])
                } else {
                    None
                },
            },
            ConfigShape::BitWidthReduction => FilterConfig::BitWidthReduction {
                max_window_size: wire::le_u32(b, at),
            },
            ConfigShape::PositiveDelta => FilterConfig::PositiveDelta {
                max_window_size: wire::le_u32(b, at),
            },
            ConfigShape::ScaleFloat => FilterConfig::ScaleFloat {
                scale_bits: wire::le_u64(b, at),
                offset_bits: wire::le_u64(b, at + 8),
                byte_width: wire::le_u64(b, at + 16),
            },
            ConfigShape::WebP => FilterConfig::WebP {
                quality_bits: wire::le_u32(b, at),
                format: b[at + 4],
                lossless: b[at + 5],
                y_extent: wire::le_u16(b, at + 6),
                x_extent: wire::le_u16(b, at + 8),
            },
            ConfigShape::Nothing => FilterConfig::NoConfig,
        }
    }

    /// What decoding the configuration of a filter of `kind` at `pos` gives:
    /// the configuration and the position behind it; the end of input, where
    /// the configuration does not fit; the compressor's byte, where it names
    /// no kind.
    pub open spec fn spec_decode(b: Seq<u8>, pos: usize, version: u32, kind: FilterType) -> Result<
        (FilterConfig, usize),
        Error,
    > {
        if pos + Self::wire_len(version, kind) > b.len() {
            Err(Error::UnexpectedEof { field: Field::FilterConfig, offset: pos })
        } else if Self::shape_of(kind) == ConfigShape::Compression && FilterType::of_code(
            b[pos as int],
        ) == FilterType::Invalid {
            Err(Error::InvalidEnumValue { field: Field::CompressorKind, raw: b[pos as int] })
        } else {
            Ok(
                (
                    Self::at(b, pos as int, version, kind),
                    (pos + Self::wire_len(version, kind)) as usize,
                ),
            )
        }
    }

    /// The bytes that store the configuration.
    pub open spec fn spec_encode(self) -> Seq<u8> {
        match self {
            FilterConfig::Compression { compressor_type, compression_level, reinterpret_type } => {
                seq![compressor_type.code()] + wire::u32_le(wire::as_unsigned(compression_level))
                    + (match reinterpret_type {
                    Some(t) => seq![t],
                    None => Seq::empty(),
                })
            },
            FilterConfig::BitWidthReduction { max_window_size } => wire::u32_le(max_window_size),
            FilterConfig::PositiveDelta { max_window_size } => wire::u32_le(max_window_size),
            FilterConfig::ScaleFloat { scale_bits, offset_bits, byte_width } => wire::u64_le(
                scale_bits,
            ) + wire::u64_le(offset_bits) + wire::u64_le(byte_width),
            FilterConfig::WebP { quality_bits, format, lossless, y_extent, x_extent } => {
                wire::u32_le(quality_bits) + seq![format, lossless] + wire::u16_le(y_extent)
                    + wire::u16_le(x_extent)
            },
            FilterConfig::NoConfig => Seq::empty(),
        }
    }

    /// Decodes the configuration of a filter of `kind` at `pos`.
    pub fn decode(bytes: &[u8], pos: usize, version: u32, kind: FilterType) -> (r: Result<
        (FilterConfig, usize),
        Error,
    >)
        ensures
            r == Self::spec_decode(bytes@, pos, version, kind),
    {
        if is_compression_filter(kind) {
            let reinterprets = has_reinterpret_type(version, kind);
            let n: usize = if reinterprets {
                6
            } else {
                5
            };
            wire::need(bytes, pos, n, Field::FilterConfig)?;
            let raw = bytes[pos];
            let compressor_type = FilterType::from(raw);
            if compressor_type == FilterType::Invalid {
                return Err(Error::InvalidEnumValue { field: Field::CompressorKind, raw });
            }
            let compression_level = wire::get_i32(bytes, pos + 1);
            let reinterpret_type = if reinterprets {
                Some(bytes[pos + 5])
            } else {
                None
            };
            Ok(
                (
                    FilterConfig::Compression {
                        compressor_type,
                        compression_level,
                        reinterpret_type,
                    },
                    pos + n,
                ),
            )
        } else if is_bit_width_reduction_filter(kind) {
            wire::need(bytes, pos, 4, Field::FilterConfig)?;
            Ok(
                (
                    FilterConfig::BitWidthReduction { max_window_size: wire::get_u32(bytes, pos) },
                    pos + 4,
                ),
            )
        } else if is_positive_delta_filter(kind) {
            wire::need(bytes, pos, 4, Field::FilterConfig)?;
            Ok(
                (
                    FilterConfig::PositiveDelta { max_window_size: wire::get_u32(bytes, pos) },
                    pos + 4,
                ),
            )
        } else if is_scale_float_filter(kind) {
            wire::need(bytes, pos, 24, Field::FilterConfig)?;
            Ok(
                (
                    FilterConfig::ScaleFloat {
                        scale_bits: wire::get_u64(bytes, pos),
                        offset_bits: wire::get_u64(bytes, pos + 8),
                        byte_width: wire::get_u64(bytes, pos + 16),
                    },
                    pos + 24,
                ),
            )
        } else if is_webp_filter(kind) {
            wire::need(bytes, pos, 10, Field::FilterConfig)?;
            Ok(
                (
                    FilterConfig::WebP {
                        quality_bits: wire::get_u32(bytes, pos),
                        format: bytes[pos + 4],
                        lossless: bytes[pos + 5],
                        y_extent: wire::get_u16(bytes, pos + 6),
                        x_extent: wire::get_u16(bytes, pos + 8),
                    },
                    pos + 10,
                ),
            )
        } else {
            wire::need(bytes, pos, 0, Field::FilterConfig)?;
            Ok((FilterConfig::NoConfig, pos))
        }
    }

    /// Appends the bytes that store the configuration.
    pub fn encode(&self, out: &mut Vec<u8>)
        ensures
            final(out)@ == old(out)@ + self.spec_encode(),
    {
        match *self {
            FilterConfig::Compression { compressor_type, compression_level, reinterpret_type } => {
                out.push(compressor_type.to_u8());
                wire::write_i32(out, compression_level);
                match reinterpret_type {
                    Some(t) => out.push(t),
                    None => {},
                }
            },
            FilterConfig::BitWidthReduction { max_window_size } => wire::write_u32(
                out,
                max_window_size,
            ),
            FilterConfig::PositiveDelta { max_window_size } => wire::write_u32(out, max_window_size),
            FilterConfig::ScaleFloat { scale_bits, offset_bits, byte_width } => {
                wire::write_u64(out, scale_bits);
                wire::write_u64(out, offset_bits);
                wire::write_u64(out, byte_width);
            },
            FilterConfig::WebP { quality_bits, format, lossless, y_extent, x_extent } => {
                wire::write_u32(out, quality_bits);
                out.push(format);
                out.push(lossless);
                wire::write_u16(out, y_extent);
                wire::write_u16(out, x_extent);
            },
            FilterConfig::NoConfig => {},
        }
        assert(out@ =~= old(out)@ + self.spec_encode());
    }

    /// Encoding a decoded configuration gives the bytes it was decoded from.
    pub proof fn lemma_written(b: Seq<u8>, pos: usize, version: u32, kind: FilterType)
        requires
            b.len() <= usize::MAX,
            Self::spec_decode(b, pos, version, kind) is Ok,
        ensures
            ({
                let (c, next) = Self::spec_decode(b, pos, version, kind)->Ok_0;
                pos <= next <= b.len() && c.spec_encode() == b.subrange(pos as int, next as int)
            }),
    {
        let (c, next) = Self::spec_decode(b, pos, version, kind)->Ok_0;
        let at = pos as int;
        match Self::shape_of(kind) {
            ConfigShape::Compression => {
                wire::lemma_byte(b, at);
                wire::lemma_i32_written(b, at + 1);
                FilterType::code_of_code(b[at]);
                wire::lemma_join(b, at, at + 1, at + 5);
                if Self::reinterprets(version, kind) {
                    wire::lemma_byte(b, at + 5);
                    wire::lemma_join(b, at, at + 5, at + 6);
                } else {
                    assert(b.subrange(at, at + 5) + Seq::<u8>::empty() =~= b.subrange(at, at + 5));
                }
                assert(c.spec_encode() == b.subrange(at, next as int));
            },
            ConfigShape::BitWidthReduction => {
                wire::lemma_u32_written(b, at);
            },
            ConfigShape::PositiveDelta => {
                wire::lemma_u32_written(b, at);
            },
            ConfigShape::ScaleFloat => {
                wire::lemma_u64_written(b, at);
                wire::lemma_u64_written(b, at + 8);
                wire::lemma_u64_written(b, at + 16);
                wire::lemma_join(b, at, at + 8, at + 16);
                wire::lemma_join(b, at, at + 16, at + 24);
                assert(c.spec_encode() == b.subrange(at, next as int));
            },
            ConfigShape::WebP => {
                wire::lemma_u32_written(b, at);
                wire::lemma_u16_written(b, at + 6);
                wire::lemma_u16_written(b, at + 8);
                assert(seq![b[at + 4], b[at + 5]] =~= b.subrange(at + 4, at + 6));
                wire::lemma_join(b, at, at + 4, at + 6);
                wire::lemma_join(b, at, at + 6, at + 8);
                wire::lemma_join(b, at, at + 8, at + 10);
                assert(c.spec_encode() == b.subrange(at, next as int));
            },
            ConfigShape::Nothing => {
                assert(c.spec_encode() =~= b.subrange(at, next as int));
            },
        }
    }
}

/// A filter as it is stored: its kind, the length of its metadata and its
/// configuration.
#[derive(Clone, Copy, Debug, PartialEq, Eq)]
pub struct Filter {
    pub filter_type: FilterType,
    pub metadata_len: u32,
    pub config: FilterConfig,
}

impl Filter {
    /// The kind of the filter.
    pub fn filter_type(&self) -> (kind: FilterType)
        ensures
            kind == self.filter_type,
    {
        self.filter_type
    }

    /// The configuration stored with the filter.
    pub fn config(&self) -> (config: &FilterConfig)
        ensures
            *config == self.config,
    {
        &self.config
    }

    /// What decoding a filter at `pos` gives: the filter and the position
    /// behind it; the end of input, where its five leading bytes or its
    /// configuration do not fit; its first byte, where that names no kind.
    pub open spec fn spec_decode(b: Seq<u8>, pos: usize, version: u32) -> Result<
        (Filter, usize),
        Error,
    > {
        if pos + 5 > b.len() {
            Err(Error::UnexpectedEof { field: Field::FilterHeader, offset: pos })
        } else if FilterType::of_code(b[pos as int]) == FilterType::Invalid {
            Err(Error::InvalidEnumValue { field: Field::FilterKind, raw: b[pos as int] })
        } else {
            let kind = FilterType::of_code(b[pos as int]);
            match FilterConfig::spec_decode(b, (pos + 5) as usize, version, kind) {
                Err(e) => Err(e),
                Ok((config, next)) => Ok(
                    (
                        Filter {
                            filter_type: kind,
                            metadata_len: wire::le_u32(b, pos + 1),
                            config,
                        },
                        next,
                    ),
                ),
            }
        }
    }

    /// Decoding a filter of `b`, as a function of the position.
    pub open spec fn decoder(b: Seq<u8>, version: u32) -> spec_fn(usize) -> Result<
        (Filter, usize),
        Error,
    > {
        |pos: usize| Self::spec_decode(b, pos, version)
    }

    /// The bytes that store the filter.
    pub open spec fn spec_encode(self) -> Seq<u8> {
        seq![self.filter_type.code()] + wire::u32_le(self.metadata_len) + self.config.spec_encode()
    }

    /// Encoding a filter, as a function.
    pub open spec fn encoder() -> spec_fn(Filter) -> Seq<u8> {
        |f: Filter| f.spec_encode()
    }

    /// Decodes the filter at `pos`.
    pub fn decode(bytes: &[u8], pos: usize, version: u32) -> (r: Result<(Filter, usize), Error>)
        ensures
            r == Self::spec_decode(bytes@, pos, version),
    {
        wire::need(bytes, pos, 5, Field::FilterHeader)?;
        let raw = bytes[pos];
        let filter_type = FilterType::from(raw);
        if filter_type == FilterType::Invalid {
            return Err(Error::InvalidEnumValue { field: Field::FilterKind, raw });
        }
        let metadata_len = wire::get_u32(bytes, pos + 1);
        let (config, next) = FilterConfig::decode(bytes, pos + 5, version, filter_type)?;
        Ok((Filter { filter_type, metadata_len, config }, next))
    }

    /// Appends the bytes that store the filter.
    pub fn encode(&self, out: &mut Vec<u8>)
        ensures
            final(out)@ == old(out)@ + self.spec_encode(),
    {
        out.push(self.filter_type.to_u8());
        wire::write_u32(out, self.metadata_len);
        self.config.encode(out);
        assert(out@ =~= old(out)@ + self.spec_encode());
    }

    /// Encoding a decoded filter gives the bytes it was decoded from.
    pub proof fn lemma_written(b: Seq<u8>, pos: usize, version: u32)
        requires
            b.len() <= usize::MAX,
            Self::spec_decode(b, pos, version) is Ok,
        ensures
            ({
                let (f, next) = Self::spec_decode(b, pos, version)->Ok_0;
                pos <= next <= b.len() && f.spec_encode() == b.subrange(pos as int, next as int)
            }),
    {
        let at = pos as int;
        let kind = FilterType::of_code(b[at]);
        FilterConfig::lemma_written(b, (pos + 5) as usize, version, kind);
        FilterType::code_of_code(b[at]);
        wire::lemma_byte(b, at);
        wire::lemma_u32_written(b, at + 1);
        let (f, next) = Self::spec_decode(b, pos, version)->Ok_0;
        wire::lemma_join(b, at, at + 1, at + 5);
        wire::lemma_join(b, at, at + 5, next as int);
    }

    /// Whether the kind of the filter, and of its compressor where it has
    /// one, is a known one.
    pub open spec fn known(self) -> bool {
        &&& self.filter_type != FilterType::Invalid
        &&& self.config matches FilterConfig::Compression { compressor_type, .. }
            ==> compressor_type != FilterType::Invalid
    }

    /// Whether the kinds of a filter are known ones, as a function.
    pub open spec fn is_known() -> spec_fn(Filter) -> bool {
        |f: Filter| f.known()
    }

    /// No decoded filter has a kind that is not known.
    pub proof fn lemma_yields_known(b: Seq<u8>, version: u32)
        ensures
            wire::yields(Self::decoder(b, version), Self::is_known()),
    {
        assert forall|p: usize| (#[trigger] Self::decoder(b, version)(p)) matches Ok((t, q))
            ==> Self::is_known()(t) by {}
    }

    /// Every decoded filter writes back to the bytes it came from.
    pub proof fn lemma_writes_back(b: Seq<u8>, version: u32)
        requires
            b.len() <= usize::MAX,
        ensures
            wire::writes_back(b, Self::decoder(b, version), Self::encoder()),
    {
        assert forall|p: usize| p <= b.len() implies (#[trigger] Self::decoder(b, version)(p) matches Ok(
            (t, q),
        ) ==> p <= q <= b.len() && Self::encoder()(t) == b.subrange(p as int, q as int)) by {
            if Self::spec_decode(b, p, version) is Ok {
                Self::lemma_written(b, p, version);
            }
        }
    }
}

/// A filter pipeline as it is stored: the largest chunk size and the
/// filters, in the order in which they were applied on writing.
#[derive(Debug, PartialEq, Eq)]
pub struct FilterList {
    pub max_chunk_size: u32,
    pub filters: Vec<Filter>,
}

/// What a stored pipeline holds.
pub ghost struct FilterListView {
    pub max_chunk_size: u32,
    pub filters: Seq<Filter>,
}

impl View for FilterList {
    type V = FilterListView;

    open spec fn view(&self) -> FilterListView {
        FilterListView { max_chunk_size: self.max_chunk_size, filters: self.filters@ }
    }
}

impl FilterListView {
    /// Whether the kinds of all filters of the pipeline are known ones.
    pub open spec fn known(self) -> bool {
        wire::all(self.filters, Filter::is_known())
    }

    /// The bytes that store the pipeline.
    pub open spec fn spec_encode(self) -> Seq<u8> {
        wire::u32_le(self.max_chunk_size) + wire::u32_le(self.filters.len() as u32)
            + wire::spec_concat(self.filters, Filter::encoder())
    }
}

impl Clone for FilterList {
    fn clone(&self) -> (list: FilterList)
        ensures
            list@ == self@,
    {
        let mut filters: Vec<Filter> = Vec::new();
        let mut i: usize = 0;
        while i < self.filters.len()
            invariant
                i <= self.filters@.len(),
                filters@ == self.filters@.take(i as int),
            decreases self.filters@.len() - i,
        {
            filters.push(self.filters[i]);
            assert(filters@ =~= self.filters@.take(i + 1));
            i += 1;
        }
        assert(self.filters@.take(i as int) =~= self.filters@);
        FilterList { max_chunk_size: self.max_chunk_size, filters }
    }
}

impl Default for FilterList {
    fn default() -> (list: FilterList)
        ensures
            list@ == (FilterListView { max_chunk_size: 0, filters: Seq::empty() }),
    {
        FilterList { max_chunk_size: 0, filters: Vec::new() }
    }
}

impl FilterList {
    /// The filters, in the order in which they were applied on writing.
    pub fn filters(&self) -> (filters: &[Filter])
        ensures
            filters@ == self.filters@,
    {
        self.filters.as_slice()
    }

    /// What decoding a pipeline at `pos` gives: the pipeline and the position
    /// behind it, or the error of its eight leading bytes or of the first
    /// filter that fails.
    pub open spec fn spec_decode(b: Seq<u8>, pos: usize, version: u32) -> Result<
        (FilterListView, usize),
        Error,
    > {
        if pos + 8 > b.len() {
            Err(Error::UnexpectedEof { field: Field::PipelineHeader, offset: pos })
        } else {
            match wire::spec_repeat(
                Filter::decoder(b, version),
                (pos + 8) as usize,
                wire::le_u32(b, pos + 4) as nat,
            ) {
                Err(e) => Err(e),
                Ok((filters, next)) => Ok(
                    (FilterListView { max_chunk_size: wire::le_u32(b, pos as int), filters }, next),
                ),
            }
        }
    }

    /// Decodes the pipeline at `pos`, as it was written in format `version`.
    pub fn decode(bytes: &[u8], pos: usize, version: u32) -> (r: Result<(FilterList, usize), Error>)
        ensures
            wire::decoded(r) == Self::spec_decode(bytes@, pos, version),
    {
        wire::need(bytes, pos, 8, Field::PipelineHeader)?;
        let max_chunk_size = wire::get_u32(bytes, pos);
        let num_filters = wire::get_u32(bytes, pos + 4);
        let start: usize = pos + 8;
        let mut filters: Vec<Filter> = Vec::new();
        let mut at: usize = start;
        let mut i: u32 = 0;
        while i < num_filters
            invariant
                i <= num_filters,
                pos + 8 <= bytes@.len(),
                start == pos + 8,
                num_filters == wire::le_u32(bytes@, pos + 4),
                wire::spec_repeat(Filter::decoder(bytes@, version), start, i as nat) == Ok::<
                    (Seq<Filter>, usize),
                    Error,
                >((filters@, at)),
            decreases num_filters - i,
        {
            match Filter::decode(bytes, at, version) {
                Ok((f, next)) => {
                    filters.push(f);
                    at = next;
                },
                Err(e) => {
                    proof {
                        let item = Filter::decoder(bytes@, version);
                        assert(item(at) == Err::<(Filter, usize), Error>(e));
                        assert(wire::spec_repeat(item, start, (i + 1) as nat) == Err::<
                            (Seq<Filter>, usize),
                            Error,
                        >(e));
                        wire::lemma_repeat_error(item, start, (i + 1) as nat, num_filters as nat);
                    }
                    return Err(e);
                },
            }
            i += 1;
        }
        Ok((FilterList { max_chunk_size, filters }, at))
    }

    /// Appends the bytes that store the pipeline.
    pub fn encode(&self, out: &mut Vec<u8>)
        requires
            self.filters@.len() <= u32::MAX,
        ensures
            final(out)@ == old(out)@ + self@.spec_encode(),
    {
        wire::write_u32(out, self.max_chunk_size);
        wire::write_u32(out, self.filters.len() as u32);
        let ghost head = out@;
        let mut i: usize = 0;
        while i < self.filters.len()
            invariant
                i <= self.filters@.len(),
                out@ == head + wire::spec_concat(self.filters@.take(i as int), Filter::encoder()),
            decreases self.filters@.len() - i,
        {
            self.filters[i].encode(out);
            proof {
                wire::lemma_concat_push(
                    self.filters@.take(i as int),
                    self.filters@[i as int],
                    Filter::encoder(),
                );
                assert(self.filters@.take(i as int).push(self.filters@[i as int])
                    =~= self.filters@.take(i + 1));
                assert(out@ =~= head + wire::spec_concat(
                    self.filters@.take(i + 1),
                    Filter::encoder(),
                ));
            }
            i += 1;
        }
        assert(self.filters@.take(i as int) =~= self.filters@);
        assert(out@ =~= old(out)@ + self@.spec_encode());
    }

    /// No filter of a decoded pipeline has a kind that is not known: a byte
    /// that names no kind is rejected, not taken over.
    pub proof fn lemma_known(b: Seq<u8>, pos: usize, version: u32)
        ensures
            Self::spec_decode(b, pos, version) matches Ok((list, next)) ==> list.known(),
    {
        Filter::lemma_yields_known(b, version);
        wire::lemma_repeat_yields(
            Filter::decoder(b, version),
            Filter::is_known(),
            (pos + 8) as usize,
            wire::le_u32(b, pos + 4) as nat,
        );
    }

    /// Encoding a decoded pipeline gives the bytes it was decoded from.
    pub proof fn lemma_written(b: Seq<u8>, pos: usize, version: u32)
        requires
            b.len() <= usize::MAX,
            Self::spec_decode(b, pos, version) is Ok,
        ensures
            ({
                let (list, next) = Self::spec_decode(b, pos, version)->Ok_0;
                &&& pos <= next <= b.len()
                &&& list.filters.len() <= u32::MAX
                &&& list.spec_encode() == b.subrange(pos as int, next as int)
            }),
    {
        let at = pos as int;
        let n = wire::le_u32(b, at + 4);
        let (list, next) = Self::spec_decode(b, pos, version)->Ok_0;
        Filter::lemma_writes_back(b, version);
        wire::lemma_repeat_written(
            b,
            Filter::decoder(b, version),
            Filter::encoder(),
            (pos + 8) as usize,
            n as nat,
        );
        wire::lemma_repeat_len(Filter::decoder(b, version), (pos + 8) as usize, n as nat);
        wire::lemma_u32_written(b, at);
        wire::lemma_u32_written(b, at + 4);
        wire::lemma_join(b, at, at + 4, at + 8);
        wire::lemma_join(b, at, at + 8, next as int);
    }
}

} // verus!
