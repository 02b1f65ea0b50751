//! The entries of an array's directory, and the schemas and fragments that
//! they name.

use crate::error::Error;
use crate::io::service::{VFSService, WalkOptions, WalkOptionsView};
use crate::io::uri;
use crate::io::uri::{UriView, URI};
use crate::io::{FSEntry, FSEntryView};
use crate::storage::wire;
use vstd::prelude::*;

verus! {

/// The entries of the directory of an array.
pub struct Directory {
    array_uri: URI,
    commit_entries: Vec<FSEntry>,
    root_entries: Vec<FSEntry>,
    schema_entries: Vec<FSEntry>,
}

/// What is known of the directory of an array.
pub ghost struct DirectoryView {
    pub array_uri: UriView,
    pub commit_entries: Seq<FSEntryView>,
    pub root_entries: Seq<FSEntryView>,
    pub schema_entries: Seq<FSEntryView>,
}

impl View for Directory {
    type V = DirectoryView;

    closed spec fn view(&self) -> DirectoryView {
        DirectoryView {
            array_uri: self.array_uri@,
            commit_entries: wire::views(self.commit_entries@),
            root_entries: wire::views(self.root_entries@),
            schema_entries: wire::views(self.schema_entries@),
        }
    }
}

/// The last part of the path of an entry.
pub open spec fn entry_name(entry: FSEntryView) -> Seq<char> {
    entry.uri.path.subrange(uri::last_part_start(entry.uri.path), entry.uri.path.len() as int)
}

/// The location of the first of `entries` that is named
/// `__array_schema.tdb`, if there is one.
pub open spec fn old_schema(entries: Seq<FSEntryView>) -> Seq<UriView>
    decreases entries.len(),
{
    if entries.len() == 0 {
        Seq::empty()
    } else {
        let before = old_schema(entries.drop_last());
        if before.len() > 0 {
            before
        } else if entry_name(entries.last()) == "__array_schema.tdb"@ {
            seq![entries.last().uri]
        } else {
            Seq::empty()
        }
    }
}

/// The locations of those of `entries` that are not named
/// `__enumerations`, in their order.
pub open spec fn new_schemas(entries: Seq<FSEntryView>) -> Seq<UriView>
    decreases entries.len(),
{
    if entries.len() == 0 {
        Seq::empty()
    } else if entry_name(entries.last()) != "__enumerations"@ {
        new_schemas(entries.drop_last()).push(entries.last().uri)
    } else {
        new_schemas(entries.drop_last())
    }
}

/// The locations of those of `entries` whose path ends in `.ok`, in their
/// order.
pub open spec fn marked_fragments(entries: Seq<FSEntryView>) -> Seq<UriView>
    decreases entries.len(),
{
    if entries.len() == 0 {
        Seq::empty()
    } else if uri::spec_ends_with(entries.last().uri.path, ".ok"@) {
        marked_fragments(entries.drop_last()).push(entries.last().uri)
    } else {
        marked_fragments(entries.drop_last())
    }
}

/// The location under `__fragments` in the array at `array_uri` that goes
/// with a commit entry: the path of the entry, added to that directory.
pub open spec fn committed_fragment(array_uri: UriView, entry: FSEntryView) -> UriView {
    UriView {
        path: uri::joined(uri::joined(array_uri.path, "__fragments"@), entry.uri.path),
        ..array_uri
    }
}

/// The locations that go with those of `entries` whose path ends in `.wrt`,
/// in their order.
pub open spec fn committed_fragments(array_uri: UriView, entries: Seq<FSEntryView>) -> Seq<UriView>
    decreases entries.len(),
{
    if entries.len() == 0 {
        Seq::empty()
    } else if uri::spec_ends_with(entries.last().uri.path, ".wrt"@) {
        committed_fragments(array_uri, entries.drop_last()).push(
            committed_fragment(array_uri, entries.last()),
        )
    } else {
        committed_fragments(array_uri, entries.drop_last())
    }
}

impl Directory {
    /// The directory of the array at `array_uri`, of which no entry is
    /// known yet.
    pub fn new(array_uri: &URI) -> (directory: Directory)
        ensures
            directory@ == (DirectoryView {
                array_uri: array_uri@,
                commit_entries: Seq::empty(),
                root_entries: Seq::empty(),
                schema_entries: Seq::empty(),
            }),
    {
        proof {
            wire::lemma_views_empty::<FSEntry>();
        }
        Directory {
            array_uri: array_uri.clone(),
            commit_entries: Vec::new(),
            root_entries: Vec::new(),
            schema_entries: Vec::new(),
        }
    }

    /// Takes in the entries that were found in the array's directory, under
    /// `__commits` and under `__schema`, behind those that are known.
    pub fn add_entries(&mut self, root: Vec<FSEntry>, commits: Vec<FSEntry>, schemas: Vec<FSEntry>)
        ensures
            final(self)@ == (DirectoryView {
                array_uri: old(self)@.array_uri,
                commit_entries: old(self)@.commit_entries + wire::views(commits@),
                root_entries: old(self)@.root_entries + wire::views(root@),
                schema_entries: old(self)@.schema_entries + wire::views(schemas@),
            }),
    {
        let mut root = root;
        let mut commits = commits;
        let mut schemas = schemas;
        let ghost before = self@;
        let ghost had_root = self.root_entries@;
        let ghost had_commits = self.commit_entries@;
        let ghost had_schemas = self.schema_entries@;
        let ghost more_root = root@;
        let ghost more_commits = commits@;
        let ghost more_schemas = schemas@;
        self.root_entries.append(&mut root);
        self.commit_entries.append(&mut commits);
        self.schema_entries.append(&mut schemas);
        assert(wire::views(had_root + more_root) =~= wire::views(had_root) + wire::views(more_root));
        assert(wire::views(had_commits + more_commits) =~= wire::views(had_commits) + wire::views(
            more_commits,
        ));
        assert(wire::views(had_schemas + more_schemas) =~= wire::views(had_schemas) + wire::views(
            more_schemas,
        ));
    }

    /// The options under which the directories of an array are walked: one
    /// level deep, in the order of the storage, with a link followed only at
    /// the start.
    pub open spec fn walk_options() -> WalkOptionsView {
        WalkOptionsView {
            min_depth: 1,
            max_depth: 1,
            follow_links: false,
            follow_root_links: true,
            sort_filenames: false,
        }
    }

    /// The directory `name` of the array at `array_uri`.
    pub open spec fn subdirectory(array_uri: UriView, name: Seq<char>) -> UriView {
        UriView { path: uri::joined(array_uri.path, name), ..array_uri }
    }

    /// Walks the array's directory, its `__commits` and its `__schema`, one
    /// level deep each, and takes in what the service finds: the entries
    /// that each walk gave go behind those that are known from the same
    /// directory. Where a walk fails, nothing is taken in, and the failure
    /// is that of the first walk that failed, the walks before it having
    /// given an answer.
    pub fn load_all(&mut self, vfs: &dyn VFSService) -> (r: Result<(), Error>)
        ensures
            final(self)@.array_uri == old(self)@.array_uri,
            old(self)@.root_entries.is_prefix_of(final(self)@.root_entries),
            old(self)@.commit_entries.is_prefix_of(final(self)@.commit_entries),
            old(self)@.schema_entries.is_prefix_of(final(self)@.schema_entries),
            match r {
                Ok(()) => {
                    &&& exists|found: Vec<FSEntry>|
                        wire::views(found@) == final(self)@.root_entries.skip(
                            old(self)@.root_entries.len() as int,
                        ) && #[trigger] vfs.walk_gives(
                            old(self)@.array_uri,
                            Self::walk_options(),
                            Ok::<Vec<FSEntry>, Error>(found),
                        )
                    &&& exists|found: Vec<FSEntry>|
                        wire::views(found@) == final(self)@.commit_entries.skip(
                            old(self)@.commit_entries.len() as int,
                        ) && #[trigger] vfs.walk_gives(
                            Self::subdirectory(old(self)@.array_uri, "__commits"@),
                            Self::walk_options(),
                            Ok::<Vec<FSEntry>, Error>(found),
                        )
                    &&& exists|found: Vec<FSEntry>|
                        wire::views(found@) == final(self)@.schema_entries.skip(
                            old(self)@.schema_entries.len() as int,
                        ) && #[trigger] vfs.walk_gives(
                            Self::subdirectory(old(self)@.array_uri, "__schema"@),
                            Self::walk_options(),
                            Ok::<Vec<FSEntry>, Error>(found),
                        )
                },
                Err(e) => {
                    &&& final(self)@ == old(self)@
                    &&& {
                        ||| vfs.walk_gives(
                            old(self)@.array_uri,
                            Self::walk_options(),
                            Err::<Vec<FSEntry>, Error>(e),
                        )
                        ||| (exists|found: Vec<FSEntry>| #[trigger]
                            vfs.walk_gives(
                                old(self)@.array_uri,
                                Self::walk_options(),
                                Ok::<Vec<FSEntry>, Error>(found),
                            )) && vfs.walk_gives(
                            Self::subdirectory(old(self)@.array_uri, "__commits"@),
                            Self::walk_options(),
                            Err::<Vec<FSEntry>, Error>(e),
                        )
                        ||| (exists|found: Vec<FSEntry>| #[trigger]
                            vfs.walk_gives(
                                old(self)@.array_uri,
                                Self::walk_options(),
                                Ok::<Vec<FSEntry>, Error>(found),
                            )) && (exists|found: Vec<FSEntry>| #[trigger]
                            vfs.walk_gives(
                                Self::subdirectory(old(self)@.array_uri, "__commits"@),
                                Self::walk_options(),
                                Ok::<Vec<FSEntry>, Error>(found),
                            )) && vfs.walk_gives(
                            Self::subdirectory(old(self)@.array_uri, "__schema"@),
                            Self::walk_options(),
                            Err::<Vec<FSEntry>, Error>(e),
                        )
                    }
                },
            },
    {
        let ghost before = self@;
        let wopts = WalkOptions::default().set_min_depth(1).set_max_depth(1);
        let root = match vfs.walk_with_options(&self.array_uri, &wopts) {
            Ok(root) => root,
            Err(e) => {
                return Err(e);
            },
        };
        proof {
            assert(vfs.walk_gives(
                before.array_uri,
                Self::walk_options(),
                Ok::<Vec<FSEntry>, Error>(root),
            ));
        }
        let commits_uri = self.array_uri.join("__commits");
        let commits = match vfs.walk_with_options(&commits_uri, &wopts) {
            Ok(commits) => commits,
            Err(e) => {
                return Err(e);
            },
        };
        proof {
            assert(vfs.walk_gives(
                Self::subdirectory(before.array_uri, "__commits"@),
                Self::walk_options(),
                Ok::<Vec<FSEntry>, Error>(commits),
            ));
        }
        let schema_uri = self.array_uri.join("__schema");
        let schemas = match vfs.walk_with_options(&schema_uri, &wopts) {
            Ok(schemas) => schemas,
            Err(e) => {
                return Err(e);
            },
        };
        let ghost found_root = wire::views(root@);
        let ghost found_commits = wire::views(commits@);
        let ghost found_schemas = wire::views(schemas@);
        proof {
            assert(vfs.walk_gives(
                Self::subdirectory(before.array_uri, "__schema"@),
                Self::walk_options(),
                Ok::<Vec<FSEntry>, Error>(schemas),
            ));
        }
        self.add_entries(root, commits, schemas);
        proof {
            assert((before.root_entries + found_root).skip(before.root_entries.len() as int)
                =~= found_root);
            assert((before.commit_entries + found_commits).skip(
                before.commit_entries.len() as int,
            ) =~= found_commits);
            assert((before.schema_entries + found_schemas).skip(
                before.schema_entries.len() as int,
            ) =~= found_schemas);
        }
        Ok(())
    }

    /// The locations of the schemas of the array: that of the first entry
    /// of the array's directory that is named `__array_schema.tdb`, then
    /// those of the entries under `__schema` that are not named
    /// `__enumerations`.
    pub fn schema_uris(&self) -> (uris: Vec<URI>)
        ensures
            wire::views(uris@) == old_schema(self@.root_entries) + new_schemas(
                self@.schema_entries,
            ),
    {
        let mut ret: Vec<URI> = Vec::new();
        let ghost root = wire::views(self.root_entries@);
        let ghost schemas = wire::views(self.schema_entries@);
        proof {
            wire::lemma_views_empty::<URI>();
        }
        let mut i: usize = 0;
        let mut found = false;
        assert(root.take(0) =~= Seq::<FSEntryView>::empty());
        while i < self.root_entries.len() && !found
            invariant
                i <= self.root_entries@.len(),
                root == wire::views(self.root_entries@),
                !found ==> ret@.len() == 0 && wire::views(ret@) == old_schema(root.take(i as int)),
                found ==> wire::views(ret@) == old_schema(root),
            decreases self.root_entries@.len() - i + (if found { 0int } else { 1int }),
        {
            proof {
                assert(root.take(i + 1).drop_last() =~= root.take(i as int));
                assert(root.take(i + 1).last() == self.root_entries@[i as int]@);
            }
            let entry_uri = self.root_entries[i].uri();
            if entry_uri.last_path_part() == String::from_str("__array_schema.tdb") {
                proof {
                    wire::lemma_views_push(ret@, entry_uri);
                    assert(Seq::<UriView>::empty().push(entry_uri@) =~= seq![entry_uri@]);
                    Self::lemma_old_schema_found(root, i + 1);
                }
                ret.push(entry_uri);
                found = true;
            } else {
                i += 1;
            }
        }
        proof {
            if !found {
                assert(root.take(i as int) =~= root);
            }
        }
        let ghost first = wire::views(ret@);
        let mut j: usize = 0;
        assert(schemas.take(0) =~= Seq::<FSEntryView>::empty());
        assert(first + new_schemas(schemas.take(0)) =~= first);
        while j < self.schema_entries.len()
            invariant
                j <= self.schema_entries@.len(),
                schemas == wire::views(self.schema_entries@),
                wire::views(ret@) == first + new_schemas(schemas.take(j as int)),
            decreases self.schema_entries@.len() - j,
        {
            proof {
                assert(schemas.take(j + 1).drop_last() =~= schemas.take(j as int));
                assert(schemas.take(j + 1).last() == self.schema_entries@[j as int]@);
            }
            let entry_uri = self.schema_entries[j].uri();
            if entry_uri.last_path_part() != String::from_str("__enumerations") {
                proof {
                    wire::lemma_views_push(ret@, entry_uri);
                    assert((first + new_schemas(schemas.take(j as int))).push(entry_uri@) =~= first
                        + new_schemas(schemas.take(j as int)).push(entry_uri@));
                }
                ret.push(entry_uri);
            }
            j += 1;
        }
        assert(schemas.take(j as int) =~= schemas);
        ret
    }

    /// Once an old schema is found among the first `k` entries, the entries
    /// behind them do not matter.
    proof fn lemma_old_schema_found(entries: Seq<FSEntryView>, k: int)
        requires
            0 <= k <= entries.len(),
            old_schema(entries.take(k)).len() > 0,
        ensures
            old_schema(entries) == old_schema(entries.take(k)),
        decreases entries.len() - k,
    {
        if k < entries.len() {
            assert(entries.take(k + 1).drop_last() =~= entries.take(k));
            Self::lemma_old_schema_found(entries, k + 1);
        } else {
            assert(entries.take(k) =~= entries);
        }
    }

    /// The locations of the fragments of the array: those of the entries of
    /// the array's directory whose path ends in `.ok`, as they are, then
    /// for each entry under `__commits` whose path ends in `.wrt` the
    /// location that its path gives under `__fragments`.
    pub fn fragment_uris(&self) -> (uris: Vec<URI>)
        ensures
            wire::views(uris@) == marked_fragments(self@.root_entries) + committed_fragments(
                self@.array_uri,
                self@.commit_entries,
            ),
    {
        let mut fragments: Vec<URI> = Vec::new();
        let ghost root = wire::views(self.root_entries@);
        let ghost commits = wire::views(self.commit_entries@);
        let ghost array_uri = self.array_uri@;
        proof {
            wire::lemma_views_empty::<URI>();
        }
        let mut i: usize = 0;
        assert(root.take(0) =~= Seq::<FSEntryView>::empty());
        while i < self.root_entries.len()
            invariant
                i <= self.root_entries@.len(),
                root == wire::views(self.root_entries@),
                wire::views(fragments@) == marked_fragments(root.take(i as int)),
            decreases self.root_entries@.len() - i,
        {
            proof {
                assert(root.take(i + 1).drop_last() =~= root.take(i as int));
                assert(root.take(i + 1).last() == self.root_entries@[i as int]@);
            }
            let entry_uri = self.root_entries[i].uri();
            if uri::ends_with(entry_uri.path_ref().as_str(), ".ok") {
                proof {
                    wire::lemma_views_push(fragments@, entry_uri);
                }
                fragments.push(entry_uri);
            }
            i += 1;
        }
        assert(root.take(i as int) =~= root);
        let ghost marked = wire::views(fragments@);
        let mut j: usize = 0;
        assert(commits.take(0) =~= Seq::<FSEntryView>::empty());
        assert(marked + committed_fragments(array_uri, commits.take(0)) =~= marked);
        while j < self.commit_entries.len()
            invariant
                j <= self.commit_entries@.len(),
                commits == wire::views(self.commit_entries@),
                array_uri == self.array_uri@,
                wire::views(fragments@) == marked + committed_fragments(
                    array_uri,
                    commits.take(j as int),
                ),
            decreases self.commit_entries@.len() - j,
        {
            proof {
                assert(commits.take(j + 1).drop_last() =~= commits.take(j as int));
                assert(commits.take(j + 1).last() == self.commit_entries@[j as int]@);
            }
            let entry_uri = self.commit_entries[j].uri();
            if uri::ends_with(entry_uri.path_ref().as_str(), ".wrt") {
                let path = entry_uri.path();
                let new_uri = self.array_uri.join("__fragments").join(path.as_str());
                proof {
                    wire::lemma_views_push(fragments@, new_uri);
                    assert((marked + committed_fragments(array_uri, commits.take(j as int))).push(
                        new_uri@,
                    ) =~= marked + committed_fragments(array_uri, commits.take(j as int)).push(
                        new_uri@,
                    ));
                }
                fragments.push(new_uri);
            }
            j += 1;
        }
        assert(commits.take(j as int) =~= commits);
        fragments
    }
}

} // verus!
