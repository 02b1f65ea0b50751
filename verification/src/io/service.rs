//! The storage service that stored objects are read through.

use crate::error::Error;
use crate::io::uri::{UriView, URI};
use crate::io::FSEntry;
use vstd::prelude::*;

verus! {

/// How a directory tree is walked.
#[derive(Clone, Copy, Debug, PartialEq, Eq)]
pub struct WalkOptions {
    min_depth: usize,
    max_depth: usize,
    follow_links: bool,
    follow_root_links: bool,
    sort_filenames: bool,
}

/// What the options of a walk hold.
pub ghost struct WalkOptionsView {
    pub min_depth: usize,
    pub max_depth: usize,
    pub follow_links: bool,
    pub follow_root_links: bool,
    pub sort_filenames: bool,
}

impl View for WalkOptions {
    type V = WalkOptionsView;

    closed spec fn view(&self) -> WalkOptionsView {
        WalkOptionsView {
            min_depth: self.min_depth,
            max_depth: self.max_depth,
            follow_links: self.follow_links,
            follow_root_links: self.follow_root_links,
            sort_filenames: self.sort_filenames,
        }
    }
}

impl Default for WalkOptions {
    /// A walk of the whole tree, in the order of the storage, that follows
    /// a link only at the root.
    fn default() -> (options: WalkOptions)
        ensures
            options@ == (WalkOptionsView {
                min_depth: 0,
                max_depth: usize::MAX,
                follow_links: false,
                follow_root_links: true,
                sort_filenames: false,
            }),
    {
        WalkOptions {
            min_depth: 0,
            max_depth: usize::MAX,
            follow_links: false,
            follow_root_links: true,
            sort_filenames: false,
        }
    }
}

impl WalkOptions {
    /// The depth above which entries are left out.
    pub fn min_depth(&self) -> (depth: usize)
        ensures
            depth == self@.min_depth,
    {
        self.min_depth
    }

    /// The options with entries above `min_depth` left out.
    pub fn set_min_depth(self, min_depth: usize) -> (options: WalkOptions)
        ensures
            options@ == (WalkOptionsView { min_depth, ..self@ }),
    {
        WalkOptions { min_depth, ..self }
    }

    /// The depth below which the walk does not go.
    pub fn max_depth(&self) -> (depth: usize)
        ensures
            depth == self@.max_depth,
    {
        self.max_depth
    }

    /// The options with the walk stopped below `max_depth`.
    pub fn set_max_depth(self, max_depth: usize) -> (options: WalkOptions)
        ensures
            options@ == (WalkOptionsView { max_depth, ..self@ }),
    {
        WalkOptions { max_depth, ..self }
    }

    /// Whether the walk follows links.
    pub fn follow_links(&self) -> (follow: bool)
        ensures
            follow == self@.follow_links,
    {
        self.follow_links
    }

    /// The options with links followed or not.
    pub fn set_follow_links(self, follow_links: bool) -> (options: WalkOptions)
        ensures
            options@ == (WalkOptionsView { follow_links, ..self@ }),
    {
        WalkOptions { follow_links, ..self }
    }

    /// Whether the walk follows a link that it starts at.
    pub fn follow_root_links(&self) -> (follow: bool)
        ensures
            follow == self@.follow_root_links,
    {
        self.follow_root_links
    }

    /// The options with a link at the start followed or not.
    pub fn set_follow_root_links(self, follow_root_links: bool) -> (options: WalkOptions)
        ensures
            options@ == (WalkOptionsView { follow_root_links, ..self@ }),
    {
        WalkOptions { follow_root_links, ..self }
    }

    /// Whether the entries of a directory come in the order of their names.
    pub fn sort_filenames(&self) -> (sort: bool)
        ensures
            sort == self@.sort_filenames,
    {
        self.sort_filenames
    }

    /// The options with the entries of a directory in the order of their
    /// names or not.
    pub fn set_sort_filenames(self, sort_filenames: bool) -> (options: WalkOptions)
        ensures
            options@ == (WalkOptionsView { sort_filenames, ..self@ }),
    {
        WalkOptions { sort_filenames, ..self }
    }
}

/// A storage service. The library reads stored objects through it and asks
/// nothing of what it returns: whatever bytes and entries come back are
/// taken as they are.
pub trait VFSService {
    /// Whether `result` is an answer that the service gave to a walk of
    /// `uri` under `options`. What lies in a storage may change from one
    /// walk to the next, so a walk has no one answer.
    spec fn walk_gives(
        &self,
        uri: UriView,
        options: WalkOptionsView,
        result: Result<Vec<FSEntry>, Error>,
    ) -> bool;

    // Buckets
    fn bucket_supported(&self) -> Result<bool, Error>;

    fn bucket_exists(&self, uri: &URI) -> Result<bool, Error>;

    fn bucket_is_empty(&self, uri: &URI) -> Result<bool, Error>;

    fn bucket_create(&self, uri: &URI) -> Result<(), Error>;

    fn bucket_remove(&self, uri: &URI) -> Result<bool, Error>;

    fn bucket_clear(&self, uri: &URI) -> Result<(), Error>;

    // Directories
    fn dir_exists(&self, uri: &URI) -> Result<bool, Error>;

    fn dir_size(&self, uri: &URI) -> Result<u64, Error>;

    fn dir_create(&self, uri: &URI) -> Result<(), Error>;

    fn dir_move(&self, src_uri: &URI, dst_uri: &URI) -> Result<(), Error>;

    fn dir_copy(&self, src_uri: &URI, dst_uri: &URI) -> Result<(), Error>;

    fn dir_remove(&self, uri: &URI) -> Result<(), Error>;

    // Files
    fn file_exists(&self, uri: &URI) -> Result<bool, Error>;

    fn file_size(&self, uri: &URI) -> Result<u64, Error>;

    fn file_create(&self, uri: &URI) -> Result<(), Error>;

    fn file_read(&self, uri: &URI, nbytes: u64, offset: u64, buffer: &mut Vec<u8>) -> Result<
        (),
        Error,
    >;

    fn file_read_vec(&self, uri: &URI, nbytes: u64, offset: u64) -> Result<Vec<u8>, Error>;

    fn file_write(&self, uri: &URI, offset: u64, buffer: &[u8]) -> Result<(), Error>;

    fn file_move(&self, src_uri: &URI, dst_uri: &URI) -> Result<(), Error>;

    fn file_copy(&self, src_uri: &URI, dst_uri: &URI) -> Result<(), Error>;

    fn file_sync(&self, uri: &URI) -> Result<(), Error>;

    fn file_remove(&self, uri: &URI) -> Result<(), Error>;

    // Listings
    fn ls(&self, uri: &URI) -> Result<Vec<FSEntry>, Error>;

    fn walk(&self, uri: &URI) -> Result<Vec<FSEntry>, Error>;

    /// The entries that a walk from `uri` on finds under `options`.
    fn walk_with_options(&self, uri: &URI, options: &WalkOptions) -> (found: Result<
        Vec<FSEntry>,
        Error,
    >)
        ensures
            self.walk_gives(uri@, options@, found),
    ;
}

} // verus!
