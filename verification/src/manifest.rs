//! Immutable, versioned tree manifests: a mapping from path to file metadata,
//! owned by the versioned store and read here through a lookup-by-identifier
//! capability.

use vstd::prelude::*;

use crate::errors::StatusError;
use crate::matcher::path_views;
use crate::matcher::spec_matches;
use crate::matcher::Matcher;
use crate::path::RepoPathBuf;

verus! {

/// Identifier of a versioned snapshot; zero is the null snapshot, which
/// stands in when a parent slot is absent.
#[derive(Debug, PartialEq, Eq, Structural, Clone, Copy)]
pub struct HgId {
    /// The numeric identity of the snapshot.
    pub id: u64,
}

impl HgId {
    /// The identifier of the null snapshot.
    pub fn null_id() -> (r: HgId)
        ensures
            r.id == 0,
    {
        HgId { id: 0 }
    }
}

/// The mode recorded for a manifest file.
#[derive(Debug, PartialEq, Eq, Structural, Clone, Copy)]
pub enum FileMode {
    /// An ordinary file.
    Regular,
    /// An executable file.
    Executable,
    /// A symbolic link.
    Symlink,
}

/// What a manifest records per path: a content identity and a mode. Two
/// files are the same exactly when their metadata is equal; the engine's
/// modified-versus-clean comparison is equality of this value.
#[derive(Debug, PartialEq, Eq, Structural, Clone, Copy)]
pub struct FileMetadata {
    /// Identity of the file content.
    pub content_id: u64,
    /// The recorded mode.
    pub mode: FileMode,
}

/// One manifest row: a path and its metadata.
#[derive(Debug)]
pub struct ManifestEntry {
    /// The path of the file.
    pub path: RepoPathBuf,
    /// The metadata recorded for it.
    pub meta: FileMetadata,
}

/// A sparse profile embedded in a manifest: the directories materialized in a
/// partial checkout, minus the directories taken back out.
#[derive(Debug)]
pub struct SparseProfile {
    /// Directories the profile materializes; empty means the whole tree.
    pub cover_dirs: Vec<RepoPathBuf>,
    /// Directories the profile leaves out of the working set.
    pub omit_dirs: Vec<RepoPathBuf>,
}

/// An immutable versioned mapping from path to file metadata, with the sparse
/// profile configured in the snapshot, when there is one.
#[derive(Debug)]
pub struct TreeManifest {
    /// The recorded files.
    pub files: Vec<ManifestEntry>,
    /// The sparse profile configured in this snapshot.
    pub profile: Option<SparseProfile>,
}

/// The metadata of the first row whose path reads `p`.
pub open spec fn mf_lookup(files: Seq<ManifestEntry>, p: Seq<u8>) -> Option<FileMetadata>
    decreases files.len(),
{
    if files.len() == 0 {
        None
    } else if files[0].path@ == p {
        Some(files[0].meta)
    } else {
        mf_lookup(files.drop_first(), p)
    }
}

/// A row with path `p` exists exactly when the lookup finds metadata.
proof fn lemma_mf_lookup_exists(files: Seq<ManifestEntry>, p: Seq<u8>)
    ensures
        (mf_lookup(files, p) is Some) == exists|i: int|
            0 <= i < files.len() && (#[trigger] files[i]).path@ == p,
    decreases files.len(),
{
    if files.len() > 0 {
        lemma_mf_lookup_exists(files.drop_first(), p);
        if files[0].path@ != p {
            if exists|i: int| 0 <= i < files.len() && (#[trigger] files[i]).path@ == p {
                let i = choose|i: int| 0 <= i < files.len() && (#[trigger] files[i]).path@ == p;
                assert(files.drop_first()[i - 1].path@ == p);
            }
        }
    }
}

impl TreeManifest {
    /// A manifest with no files and no profile: the null manifest.
    pub fn empty() -> (r: TreeManifest)
        ensures
            r.files@.len() == 0,
            r.profile is None,
    {
        TreeManifest { files: Vec::new(), profile: None }
    }

    /// What the manifest records for a path.
    pub open spec fn spec_lookup(&self, p: Seq<u8>) -> Option<FileMetadata> {
        mf_lookup(self.files@, p)
    }

    /// The metadata recorded for the path, when the manifest holds it.
    pub fn get(&self, p: &RepoPathBuf) -> (r: Option<FileMetadata>)
        ensures
            r == self.spec_lookup(p@),
    {
        let n = self.files.len();
        let mut i: usize = 0;
        proof {
            assert(self.files@.subrange(0, n as int) =~= self.files@);
        }
        while i < n
            invariant
                n == self.files@.len(),
                i <= n,
                mf_lookup(self.files@, p@) == mf_lookup(self.files@.subrange(i as int, n as int), p@),
            decreases n - i,
        {
            proof {
                assert(self.files@.subrange(i as int, n as int).drop_first() =~= self.files@
                    .subrange(i + 1, n as int));
            }
            if self.files[i].path.path_eq(p) {
                return Some(self.files[i].meta);
            }
            i += 1;
        }
        None
    }

    /// The manifest holds the path.
    pub fn contains(&self, p: &RepoPathBuf) -> (r: bool)
        ensures
            r == (self.spec_lookup(p@) is Some),
    {
        self.get(p).is_some()
    }

    /// A matcher for membership in this manifest: it matches a path exactly
    /// when the manifest records it.
    pub fn membership_matcher(&self) -> (r: Matcher)
        ensures
            forall|p: Seq<u8>| #[trigger] spec_matches(r, p) == (self.spec_lookup(p) is Some),
    {
        let n = self.files.len();
        let mut paths: Vec<RepoPathBuf> = Vec::new();
        let mut i: usize = 0;
        while i < n
            invariant
                n == self.files@.len(),
                i <= n,
                paths@.len() == i,
                forall|j: int| 0 <= j < i ==> (#[trigger] paths@[j])@ == self.files@[j].path@,
            decreases n - i,
        {
            paths.push(self.files[i].path.dup());
            i += 1;
        }
        proof {
            assert forall|p: Seq<u8>| #[trigger]
            spec_matches(Matcher::Exact(paths), p) == (self.spec_lookup(p) is Some) by {
                lemma_mf_lookup_exists(self.files@, p);
                if path_views(paths@).contains(p) {
                    let i = choose|i: int|
                        0 <= i < path_views(paths@).len() && path_views(paths@)[i] == p;
                    assert((#[trigger] paths@[i])@ == p);
                    assert(self.files@[i].path@ == p);
                }
                if exists|i: int| 0 <= i < self.files@.len() && (#[trigger] self.files@[i]).path@
                    == p {
                    let i = choose|i: int|
                        0 <= i < self.files@.len() && (#[trigger] self.files@[i]).path@ == p;
                    assert(path_views(paths@)[i] == p);
                }
            }
        }
        Matcher::Exact(paths)
    }
}

/// Lookup of a manifest by snapshot identifier among recorded snapshots.
pub open spec fn resolver_lookup(entries: Seq<(HgId, TreeManifest)>, id: HgId) -> Option<
    TreeManifest,
>
    decreases entries.len(),
{
    if entries.len() == 0 {
        None
    } else if entries[0].0 == id {
        Some(entries[0].1)
    } else {
        resolver_lookup(entries.drop_first(), id)
    }
}

/// The tree-lookup capability: resolves a snapshot identifier to its
/// manifest. The working copy reads manifests only through this contract.
pub trait ReadTreeManifest {
    /// The manifest the resolver knows for an identifier, if any.
    spec fn spec_get(&self, id: HgId) -> Option<TreeManifest>;

    /// Resolves an identifier; fails exactly when the resolver does not know
    /// the snapshot.
    fn get(&self, id: &HgId) -> (r: Result<&TreeManifest, StatusError>)
        ensures
            r matches Ok(m) ==> self.spec_get(*id) == Some(*m),
            r is Err ==> self.spec_get(*id) is None,
            r matches Err(e) ==> e == StatusError::ManifestUnavailable,
    ;
}

/// An in-memory resolver: the snapshots it was built with, always counting
/// the null manifest under the null identifier.
#[derive(Debug)]
pub struct MemoryTreeResolver {
    entries: Vec<(HgId, TreeManifest)>,
}

impl MemoryTreeResolver {
    /// A resolver that knows only the null manifest.
    pub fn new() -> (r: MemoryTreeResolver)
        ensures
            r.spec_get(HgId { id: 0 }) matches Some(m) && m.files@.len() == 0,
    {
        let mut entries: Vec<(HgId, TreeManifest)> = Vec::new();
        entries.push((HgId { id: 0 }, TreeManifest::empty()));
        MemoryTreeResolver { entries }
    }

    /// Records a manifest under an identifier not recorded yet.
    pub fn put(&mut self, id: HgId, manifest: TreeManifest)
        requires
            old(self).spec_get(id) is None,
        ensures
            final (self).spec_get(id) == Some(manifest),
            forall|other: HgId|
                other != id ==> #[trigger] final (self).spec_get(other) == old(self).spec_get(
                    other,
                ),
    {
        proof {
            lemma_resolver_lookup_push(self.entries@, id, manifest);
        }
        self.entries.push((id, manifest));
    }
}

/// Appending a fresh identifier adds exactly that snapshot to the lookup.
proof fn lemma_resolver_lookup_push(
    entries: Seq<(HgId, TreeManifest)>,
    id: HgId,
    manifest: TreeManifest,
)
    requires
        resolver_lookup(entries, id) is None,
    ensures
        resolver_lookup(entries.push((id, manifest)), id) == Some(manifest),
        forall|other: HgId|
            other != id ==> #[trigger] resolver_lookup(entries.push((id, manifest)), other)
                == resolver_lookup(entries, other),
    decreases entries.len(),
{
    if entries.len() == 0 {
        assert forall|other: HgId| other != id implies #[trigger] resolver_lookup(
            entries.push((id, manifest)),
            other,
        ) == resolver_lookup(entries, other) by {
            assert(entries.push((id, manifest)).drop_first() =~= entries);
        }
    } else {
        lemma_resolver_lookup_push(entries.drop_first(), id, manifest);
        assert(entries.push((id, manifest)).drop_first() =~= entries.drop_first().push(
            (id, manifest),
        ));
        assert forall|other: HgId| other != id implies #[trigger] resolver_lookup(
            entries.push((id, manifest)),
            other,
        ) == resolver_lookup(entries, other) by {
            if entries[0].0 != other {
                assert(resolver_lookup(entries.drop_first().push((id, manifest)), other)
                    == resolver_lookup(entries.drop_first(), other));
            }
        }
    }
}

impl ReadTreeManifest for MemoryTreeResolver {
    closed spec fn spec_get(&self, id: HgId) -> Option<TreeManifest> {
        resolver_lookup(self.entries@, id)
    }

    fn get(&self, id: &HgId) -> (r: Result<&TreeManifest, StatusError>) {
        let n = self.entries.len();
        let mut i: usize = 0;
        proof {
            assert(self.entries@.subrange(0, n as int) =~= self.entries@);
        }
        while i < n
            invariant
                n == self.entries@.len(),
                i <= n,
                resolver_lookup(self.entries@, *id) == resolver_lookup(
                    self.entries@.subrange(i as int, n as int),
                    *id,
                ),
            decreases n - i,
        {
            proof {
                assert(self.entries@.subrange(i as int, n as int).drop_first() =~= self.entries@
                    .subrange(i + 1, n as int));
            }
            if self.entries[i].0.id == id.id {
                return Ok(&self.entries[i].1);
            }
            i += 1;
        }
        Err(StatusError::ManifestUnavailable)
    }
}

} // verus!
