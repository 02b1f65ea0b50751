//! What the library asks of the storage that stored objects lie in.

use crate::io::uri::{UriView, URI};
use vstd::prelude::*;

pub mod service;
pub mod uri;

pub use self::service::VFSService;

verus! {

/// What an entry of a directory is.
#[derive(Clone, Copy, Debug, PartialEq, Eq, Structural)]
pub enum FSEntryType {
    Dir,
    File,
    Unknown,
}

/// An entry of a directory: where it lies, what it is and how many bytes it
/// holds.
#[derive(Debug, PartialEq, Eq)]
pub struct FSEntry {
    uri: URI,
    entry_type: FSEntryType,
    size: u64,
}

/// What an entry of a directory holds.
pub ghost struct FSEntryView {
    pub uri: UriView,
    pub entry_type: FSEntryType,
    pub size: u64,
}

impl View for FSEntry {
    type V = FSEntryView;

    closed spec fn view(&self) -> FSEntryView {
        FSEntryView { uri: self.uri@, entry_type: self.entry_type, size: self.size }
    }
}

impl Clone for FSEntry {
    fn clone(&self) -> (entry: FSEntry)
        ensures
            entry@ == self@,
    {
        FSEntry { uri: self.uri.clone(), entry_type: self.entry_type, size: self.size }
    }
}

impl FSEntry {
    /// The entry at `uri` that is of kind `entry_type` and holds `size`
    /// bytes.
    pub fn new(uri: URI, entry_type: FSEntryType, size: u64) -> (entry: FSEntry)
        ensures
            entry@ == (FSEntryView { uri: uri@, entry_type, size }),
    {
        FSEntry { uri, entry_type, size }
    }

    /// Where the entry lies.
    pub fn uri(&self) -> (uri: URI)
        ensures
            uri@ == self@.uri,
    {
        self.uri.clone()
    }

    /// What the entry is.
    pub fn entry_type(&self) -> (entry_type: FSEntryType)
        ensures
            entry_type == self@.entry_type,
    {
        self.entry_type
    }

    /// The number of bytes that the entry holds.
    pub fn size(&self) -> (size: u64)
        ensures
            size == self@.size,
    {
        self.size
    }
}

} // verus!
