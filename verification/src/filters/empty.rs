//! The filter that changes nothing.

use crate::error::Error;
use crate::filters::{Filter, FilterType};
use crate::storage::filter::FilterConfig;
use crate::storage::tile::{Chunk, ChunkView};
use vstd::prelude::*;

verus! {

/// The filter that leaves the data as it is.
#[derive(Default)]
pub struct EmptyFilter {}

impl EmptyFilter {
    /// The filter that a stored configuration describes: there is one where
    /// nothing is configured.
    pub fn from_config(config: &FilterConfig) -> (r: Result<EmptyFilter, Error>)
        ensures
            match r {
                Ok(filter) => *config == FilterConfig::NoConfig,
                Err(e) => *config != FilterConfig::NoConfig && e == (Error::InvalidFilterConfig {
                    kind: FilterType::NoFilter,
                }),
            },
    {
        match config {
            FilterConfig::NoConfig => Ok(EmptyFilter {  }),
            _ => Err(Error::InvalidFilterConfig { kind: FilterType::NoFilter }),
        }
    }
}

impl Filter for EmptyFilter {
    open spec fn kind(&self) -> FilterType {
        FilterType::NoFilter
    }

    /// The input becomes the output; the input is left with what the output
    /// held.
    open spec fn unfiltered(&self, input: ChunkView, output: ChunkView) -> Option<
        (ChunkView, ChunkView),
    > {
        Some((output, input))
    }

    fn filter_type(&self) -> (kind: FilterType) {
        FilterType::NoFilter
    }

    fn unfilter(&self, input: &mut Chunk, output: &mut Chunk) -> (r: Result<(), Error>) {
        std::mem::swap(output, input);
        Ok(())
    }
}

} // verus!
