//! The stored forms of schemas and tiles.

use vstd::prelude::*;

pub use crate::storage::filter::{Filter, FilterConfig, FilterList};
pub use crate::storage::schema::{
    ArraySchema, Attribute, Dimension, DimensionLabel, Domain, EnumerationEntry,
};
pub use crate::storage::tile::{
    read_generic_tile, Chunk, ChunkedData, CompressionChunkInfo, CompressionChunks,
    GenericTileHeader,
};

pub mod filter;
pub mod fragment;
pub mod schema;
pub mod tile;
pub mod wire;

verus! {

/// The newest format version that this library reads.
pub const CURRENT_FORMAT_VERSION: u32 = 21;

} // verus!
