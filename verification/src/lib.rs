//! Codec for the on-disk format of a columnar array storage engine.
//!
//! The library decodes the persisted form of array schemas and of generic
//! tiles, and undoes the chain of byte transforms (filters) that was applied
//! to a tile when it was written.

pub mod array;
pub mod datatype;
pub mod error;
pub mod filters;
pub mod io;
pub mod storage;
