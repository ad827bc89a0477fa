//! Sparse-profile resolution: each parent manifest's embedded profile, when
//! one is configured, becomes a matcher over the paths materialized in the
//! partial checkout.

use vstd::prelude::*;

use crate::manifest::SparseProfile;
use crate::manifest::TreeManifest;
use crate::matcher::dup_paths;
use crate::matcher::some_dir_contains;
use crate::matcher::spec_matches;
use crate::matcher::Matcher;
use crate::path::dir_contains;
use crate::path::RepoPathBuf;

verus! {

/// The paths a profile materializes: below one of the covered directories —
/// all of the tree when none is named — and not below an omitted one.
pub open spec fn profile_matches(cover: Seq<RepoPathBuf>, omit: Seq<RepoPathBuf>, p: Seq<u8>) -> bool {
    (cover.len() == 0 || some_dir_contains(cover, p)) && !some_dir_contains(omit, p)
}

/// What a manifest's sparse configuration says of a path: everything is in
/// the working set when no profile is configured.
pub open spec fn manifest_sparse_matches(m: TreeManifest, p: Seq<u8>) -> bool {
    match m.profile {
        None => true,
        Some(prof) => profile_matches(prof.cover_dirs@, prof.omit_dirs@, p),
    }
}

/// Resolves the manifest's sparse profile into a matcher; a manifest with no
/// profile configured resolves to nothing, and the caller substitutes the
/// matcher that accepts every path.
pub fn repo_matcher(manifest: &TreeManifest) -> (r: Option<Matcher>)
    ensures
        r is Some <==> manifest.profile is Some,
        r matches Some(m) ==> forall|p: Seq<u8>| #[trigger]
            spec_matches(m, p) == manifest_sparse_matches(*manifest, p),
{
    match &manifest.profile {
        None => None,
        Some(prof) => {
            let cover_m = if prof.cover_dirs.len() == 0 {
                Matcher::Always
            } else {
                let v = dup_paths(&prof.cover_dirs);
                let m = Matcher::DirPrefix(v);
                proof {
                    lemma_dir_prefix_same(m, prof.cover_dirs@);
                }
                m
            };
            let omit_v = dup_paths(&prof.omit_dirs);
            let omit_m = Matcher::DirPrefix(omit_v);
            proof {
                lemma_dir_prefix_same(omit_m, prof.omit_dirs@);
            }
            let ghost gc = cover_m;
            let ghost go = omit_m;
            let r = Matcher::Difference(Box::new(cover_m), Box::new(omit_m));
            proof {
                assert forall|p: Seq<u8>| #[trigger]
                spec_matches(r, p) == manifest_sparse_matches(*manifest, p) by {
                    assert(spec_matches(r, p) == (spec_matches(gc, p) && !spec_matches(go, p)));
                    assert(manifest.profile == Some(*prof));
                }
            }
            Some(r)
        },
    }
}

/// A directory-prefix matcher over copies answers as one over the originals.
proof fn lemma_dir_prefix_same(m: Matcher, dirs: Seq<RepoPathBuf>)
    requires
        m matches Matcher::DirPrefix(v) && v@.len() == dirs.len() && (forall|i: int|
            0 <= i < dirs.len() ==> (#[trigger] v@[i])@ == dirs[i]@),
    ensures
        forall|p: Seq<u8>| #[trigger] spec_matches(m, p) == some_dir_contains(dirs, p),
{
    let v = m->DirPrefix_0;
    assert forall|p: Seq<u8>| #[trigger]
    spec_matches(m, p) == some_dir_contains(dirs, p) by {
        if some_dir_contains(v@, p) {
            let i = choose|i: int| 0 <= i < v@.len() && dir_contains(#[trigger] v@[i]@, p);
            assert(dir_contains(dirs[i]@, p));
            assert(some_dir_contains(dirs, p));
        }
        if some_dir_contains(dirs, p) {
            let i = choose|i: int| 0 <= i < dirs.len() && dir_contains(#[trigger] dirs[i]@, p);
            assert(dir_contains(v@[i]@, p));
            assert(some_dir_contains(v@, p));
        }
    }
}

} // verus!
