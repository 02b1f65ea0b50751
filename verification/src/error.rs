//! The errors of the codec, and the names of the wire fields they refer to.

use crate::filters::FilterType;
use vstd::prelude::*;

verus! {

/// A part of a stored object, named in errors.
#[derive(Clone, Copy, Debug, PartialEq, Eq, Structural)]
pub enum Field {
    /// The format version that a schema starts with.
    Version,
    /// The byte of a schema that says whether duplicates are allowed.
    AllowsDups,
    /// The kind of array, the two orders and the capacity of a schema.
    SchemaHeader,
    /// The kind of array.
    ArrayType,
    /// The order of the tiles.
    TileOrder,
    /// The order of the cells.
    CellOrder,
    /// The type of a domain, a dimension, an attribute or a label.
    DataType,
    /// The number of items of a list.
    Count,
    /// The name of a dimension, an attribute or a label.
    Name,
    /// The type and the number of values per cell of a dimension.
    Dimension,
    /// The range of a dimension.
    Range,
    /// The byte of a dimension that says whether it has no tile extent.
    NullTileExtent,
    /// The tile extent of a dimension.
    TileExtent,
    /// The type and the number of values per cell of an attribute.
    Attribute,
    /// The fill value of an attribute.
    FillValue,
    /// The byte of an attribute that says whether it can be null.
    Nullable,
    /// The byte of an attribute that says whether its fill value is valid.
    FillValueValidity,
    /// The order of the values of an attribute or a label.
    DataOrder,
    /// The name of an enumeration.
    EnumerationName,
    /// The path of an enumeration.
    EnumerationPath,
    /// The order, the type, the number of values per cell and the mark of
    /// an external label, at the end of a label.
    DimensionLabel,
    /// The index of the dimension of a label.
    DimensionIndex,
    /// The byte of a label that says whether its location is relative.
    RelativeUri,
    /// The location of a label.
    Uri,
    /// The name of the attribute of a label.
    AttributeName,
    /// The largest chunk size and the number of filters of a pipeline.
    PipelineHeader,
    /// The kind and the metadata length of a filter.
    FilterHeader,
    /// The kind of a filter.
    FilterKind,
    /// The configuration of a filter.
    FilterConfig,
    /// The kind of the compressor in the configuration of a filter.
    CompressorKind,
    /// The header of a generic tile.
    TileHeader,
    /// The three sizes that a chunk starts with.
    ChunkHeader,
    /// The two sizes of a compressed part.
    Part,
    /// The metadata of a chunk.
    Metadata,
    /// The data of a chunk.
    Data,
    /// The stored pipeline of a generic tile.
    FilterPipeline,
    /// The stored chunks of a generic tile.
    Payload,
}

/// Why a stored object could not be read.
#[derive(Clone, Copy, Debug, PartialEq, Eq, Structural)]
pub enum Error {
    /// The storage layer failed.
    IoError,
    /// Fewer bytes are there than `field`, which starts at `offset`, needs.
    UnexpectedEof { field: Field, offset: usize },
    /// The object was written in a format newer than this library reads.
    UnsupportedVersion { version: u32 },
    /// The byte `raw` of an enumerated field names no variant.
    InvalidEnumValue { field: Field, raw: u8 },
    /// The bytes of a text field are not UTF-8.
    InvalidText { field: Field },
    /// A pipeline names a filter that this library cannot undo.
    UnsupportedFilter { kind: FilterType },
    /// The configuration stored with a filter does not fit its kind.
    InvalidFilterConfig { kind: FilterType },
    /// A pipeline without filters cannot be made into a chain.
    EmptyPipeline,
    /// A filter rejected the chunk at `chunk_index`.
    FilterFailure { kind: FilterType, chunk_index: usize },
    /// A string is no URI, or holds a query or a fragment.
    InvalidUri,
    /// The version at the end of a fragment's name is no number.
    InvalidFragmentName,
}

} // verus!
