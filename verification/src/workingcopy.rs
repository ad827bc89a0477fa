//! The working copy: owns the flag store, reads manifests through the
//! tree-lookup capability, holds a filesystem backend and the configured
//! ignore rules, and composes them into one status computation.

use vstd::prelude::*;

use crate::errors::StatusError;
use crate::filestate::is_added_state;
use crate::filestate::COPIED;
use crate::filestate::EXIST_NEXT;
use crate::filestate::EXIST_P1;
use crate::filestate::EXIST_P2;
use crate::filesystem::FileSystemType;
use crate::filesystem::PendingChanges;
use crate::filesystem::pending_views;
use crate::filesystem::PendingItemV;
use crate::manifest::mf_lookup;
use crate::manifest::HgId;
use crate::manifest::ReadTreeManifest;
use crate::manifest::TreeManifest;
use crate::matcher::path_views;
use crate::matcher::spec_matches;
use crate::matcher::union_of;
use crate::matcher::Matcher;
use crate::path::RepoPathBuf;
use crate::sparse::manifest_sparse_matches;
use crate::sparse::repo_matcher;
use crate::status::compute_status;
use crate::status::ignore_shield;
use crate::status::status_ctx;
use crate::status::status_describes;
use crate::status::Status;
use crate::status::StatusCtx;
use crate::status::StatusMatchers;
use crate::treestate::added_views;
use crate::treestate::lemma_added_views_contains;
use crate::treestate::lemma_file_views_len;
use crate::treestate::lemma_ts_lookup_member;
use crate::treestate::masked_views;
use crate::treestate::ts_lookup;
use crate::treestate::EntryV;
use crate::treestate::TreeState;

verus! {

/// The snapshots a status computation reads: the recorded parents, or the
/// null snapshot alone when the working copy has none.
pub open spec fn active_parent_ids(parents: Seq<HgId>) -> Seq<HgId> {
    if parents.len() == 0 {
        seq![HgId { id: 0 }]
    } else {
        parents
    }
}

/// The manifests of a sequence of borrowed manifests.
pub open spec fn deref_manifests(s: Seq<&TreeManifest>) -> Seq<TreeManifest> {
    s.map_values(|m: &TreeManifest| *m)
}

/// `ms` is what the resolver knows for each identifier, in order.
pub open spec fn manifests_match<R: ReadTreeManifest>(
    resolver: R,
    ids: Seq<HgId>,
    ms: Seq<TreeManifest>,
) -> bool {
    ms.len() == ids.len() && forall|i: int|
        0 <= i < ids.len() ==> resolver.spec_get(ids[i]) == Some(#[trigger] ms[i])
}

/// Resolves one manifest per active parent, substituting the null manifest
/// when the working copy has no parent; any failure aborts the whole call.
pub fn current_manifests<'a, R: ReadTreeManifest>(
    treestate: &TreeState,
    tree_resolver: &'a R,
) -> (r: Result<Vec<&'a TreeManifest>, StatusError>)
    ensures
        r matches Ok(ms) ==> manifests_match(
            *tree_resolver,
            active_parent_ids(treestate.spec_parents()),
            deref_manifests(ms@),
        ) && ms@.len() >= 1,
        r is Err ==> exists|i: int|
            0 <= i < active_parent_ids(treestate.spec_parents()).len() && tree_resolver.spec_get(
                #[trigger] active_parent_ids(treestate.spec_parents())[i],
            ) is None,
        r matches Err(e) ==> e == StatusError::ManifestUnavailable,
{
    let parents = treestate.parents();
    let n = parents.len();
    if n == 0 {
        let null_commit = HgId::null_id();
        match tree_resolver.get(&null_commit) {
            Ok(m) => {
                let mut v: Vec<&TreeManifest> = Vec::new();
                v.push(m);
                proof {
                    assert(deref_manifests(v@) =~= seq![*m]);
                }
                Ok(v)
            },
            Err(e) => {
                proof {
                    assert(active_parent_ids(treestate.spec_parents())[0] == null_commit);
                }
                Err(e)
            },
        }
    } else {
        let mut v: Vec<&'a TreeManifest> = Vec::new();
        let mut i: usize = 0;
        while i < n
            invariant
                n == treestate.spec_parents().len(),
                parents@ == treestate.spec_parents(),
                i <= n,
                v@.len() == i,
                forall|j: int|
                    0 <= j < i ==> tree_resolver.spec_get(parents@[j]) == Some(
                        #[trigger] deref_manifests(v@)[j],
                    ),
            decreases n - i,
        {
            let ghost pre = v@;
            match tree_resolver.get(&parents[i]) {
                Ok(m) => {
                    v.push(m);
                    proof {
                        assert(deref_manifests(v@) =~= deref_manifests(pre).push(*m));
                    }
                },
                Err(e) => {
                    proof {
                        assert(active_parent_ids(treestate.spec_parents())[i as int]
                            == parents@[i as int]);
                    }
                    return Err(e);
                },
            }
            i += 1;
        }
        Ok(v)
    }
}

/// What the sparse configuration admits: everything under a virtualized
/// filesystem, which enforces sparseness itself; otherwise a path any active
/// parent's profile materializes.
pub open spec fn sparse_spec(
    manifests: Seq<TreeManifest>,
    fs_type: FileSystemType,
    p: Seq<u8>,
) -> bool {
    if fs_type == FileSystemType::Eden {
        true
    } else {
        exists|i: int|
            0 <= i < manifests.len() && manifest_sparse_matches(#[trigger] manifests[i], p)
    }
}

/// Membership among paths any active manifest records or the newly-added
/// set: the paths ignore rules never hide.
pub open spec fn tracked_spec(
    manifests: Seq<TreeManifest>,
    entries: Seq<EntryV>,
    p: Seq<u8>,
) -> bool {
    (exists|i: int|
        0 <= i < manifests.len() && mf_lookup((#[trigger] manifests[i]).files@, p) is Some)
        || added_views(entries).contains(p)
}

/// The constructed matcher bundle computes exactly the intended predicates:
/// the caller's filter intersected with the sparse working set, the given
/// ignore rules, and tracked-or-added membership.
pub open spec fn status_matchers_ok(
    sm: StatusMatchers,
    user: Matcher,
    ignore: Matcher,
    manifests: Seq<TreeManifest>,
    fs_type: FileSystemType,
    entries: Seq<EntryV>,
) -> bool {
    &&& forall|p: Seq<u8>| #[trigger]
        spec_matches(sm.user_sparse, p) == (spec_matches(user, p) && sparse_spec(
            manifests,
            fs_type,
            p,
        ))
    &&& forall|p: Seq<u8>| #[trigger] spec_matches(sm.ignore, p) == spec_matches(ignore, p)
    &&& forall|p: Seq<u8>| #[trigger]
        spec_matches(sm.tracked_or_added, p) == tracked_spec(manifests, entries, p)
}

/// Two matcher bundles built over the same inputs answer alike, so two
/// status calls with no intervening mutation classify identically.
pub proof fn lemma_matchers_ok_equiv(
    sm1: StatusMatchers,
    sm2: StatusMatchers,
    user: Matcher,
    ignore: Matcher,
    manifests: Seq<TreeManifest>,
    fs_type: FileSystemType,
    entries: Seq<EntryV>,
)
    requires
        status_matchers_ok(sm1, user, ignore, manifests, fs_type, entries),
        status_matchers_ok(sm2, user, ignore, manifests, fs_type, entries),
    ensures
        crate::status::matchers_equiv(sm1, sm2),
{
}

/// The flag store agrees with the resolved manifests: a record flagged as
/// existing in a parent names a path that parent's manifest records.
pub open spec fn flags_consistent(entries: Seq<EntryV>, manifests: Seq<TreeManifest>) -> bool {
    forall|i: int|
        0 <= i < entries.len() ==> {
            let e = #[trigger] entries[i];
            &&& (e.bits & EXIST_P1 != 0 ==> manifests.len() > 0 && mf_lookup(
                manifests[0].files@,
                e.path,
            ) is Some)
            &&& (e.bits & EXIST_P2 != 0 ==> manifests.len() > 1 && mf_lookup(
                manifests[1].files@,
                e.path,
            ) is Some)
        }
}

/// Law (ignore-override, construction): when the flag store agrees with the
/// resolved manifests, the matcher bundle a status call builds covers every
/// path tracked in the first parent or flagged for the next state, so no
/// such path can come out `Ignored`.
pub proof fn lemma_construction_shields(ctx: StatusCtx, manifests: Seq<TreeManifest>)
    requires
        manifests.len() >= 1,
        ctx.p1 == manifests[0].files@,
        forall|p: Seq<u8>| #[trigger]
            spec_matches(ctx.matchers.tracked_or_added, p) == tracked_spec(
                manifests,
                ctx.entries,
                p,
            ),
        flags_consistent(ctx.entries, manifests),
    ensures
        ignore_shield(ctx),
{
    assert forall|p: Seq<u8>|
        (mf_lookup(ctx.p1, p) is Some || (ts_lookup(ctx.entries, p) matches Some(r) && r.bits
            & EXIST_NEXT != 0)) implies #[trigger] spec_matches(
        ctx.matchers.tracked_or_added,
        p,
    ) by {
        if mf_lookup(ctx.p1, p) is Some {
            assert(mf_lookup(manifests[0].files@, p) is Some);
            assert(tracked_spec(manifests, ctx.entries, p));
        } else {
            let r = ts_lookup(ctx.entries, p)->Some_0;
            lemma_ts_lookup_member(ctx.entries, p);
            let i = choose|i: int|
                0 <= i < ctx.entries.len() && #[trigger] ctx.entries[i] == r;
            if r.bits & EXIST_P1 != 0 {
                assert(mf_lookup(manifests[0].files@, p) is Some);
            } else if r.bits & EXIST_P2 != 0 {
                assert(mf_lookup(manifests[1].files@, p) is Some);
            } else {
                crate::filestate::lemma_added_state_parts(r.bits);
                lemma_added_views_contains(ctx.entries, i);
            }
            assert(tracked_spec(manifests, ctx.entries, p));
        }
    }
}

/// The filesystem a working copy walks: its root, the backend variant, and
/// the backend itself.
#[derive(Debug)]
pub struct FileSystem<FS: PendingChanges> {
    /// The working-copy root the backend walks.
    pub root: String,
    /// Which backend variant this is.
    pub file_system_type: FileSystemType,
    /// The backend producing change observations.
    pub inner: FS,
}

/// Pairs a backend with its variant; a virtualized backend is refused when
/// the build cannot support one, before any traversal begins.
pub fn construct_file_system<FS: PendingChanges>(
    root: String,
    file_system_type: FileSystemType,
    inner: FS,
    eden_supported: bool,
) -> (r: Result<FileSystem<FS>, StatusError>)
    ensures
        r matches Ok(fs) ==> fs.file_system_type == file_system_type && fs.inner == inner
            && !(file_system_type == FileSystemType::Eden && !eden_supported),
        r is Err <==> file_system_type == FileSystemType::Eden && !eden_supported,
        r matches Err(e) ==> e == StatusError::ScopeMisconfiguration,
{
    if file_system_type == FileSystemType::Eden && !eden_supported {
        return Err(StatusError::ScopeMisconfiguration);
    }
    Ok(FileSystem { root, file_system_type, inner })
}

/// A working copy: the exclusively-owned flag store, the manifest resolver,
/// the filesystem backend, and the configured ignore rules.
#[derive(Debug)]
pub struct WorkingCopy<R: ReadTreeManifest, FS: PendingChanges> {
    treestate: TreeState,
    tree_resolver: R,
    filesystem: FileSystem<FS>,
    ignore_matcher: Matcher,
}

impl<R: ReadTreeManifest, FS: PendingChanges> WorkingCopy<R, FS> {
    /// The owned flag store.
    pub closed spec fn spec_treestate(&self) -> TreeState {
        self.treestate
    }

    /// The manifest resolver.
    pub closed spec fn spec_resolver(&self) -> R {
        self.tree_resolver
    }

    /// The backend variant in use.
    pub closed spec fn spec_fs_type(&self) -> FileSystemType {
        self.filesystem.file_system_type
    }

    /// The backend's observations.
    pub closed spec fn spec_changes(&self) -> Seq<PendingItemV> {
        self.filesystem.inner.spec_changes()
    }

    /// The configured ignore rules.
    pub closed spec fn spec_ignore(&self) -> Matcher {
        self.ignore_matcher
    }

    /// The flag store's aggregates are consistent.
    pub open spec fn wf(&self) -> bool {
        self.spec_treestate().wf()
    }

    /// Assembles a working copy; refused when the requested backend variant
    /// is not available in this build.
    pub fn new(
        root: String,
        file_system_type: FileSystemType,
        treestate: TreeState,
        tree_resolver: R,
        inner: FS,
        ignore_matcher: Matcher,
        eden_supported: bool,
    ) -> (r: Result<WorkingCopy<R, FS>, StatusError>)
        ensures
            r matches Ok(wc) ==> {
                &&& wc.spec_treestate() == treestate
                &&& wc.spec_resolver() == tree_resolver
                &&& wc.spec_fs_type() == file_system_type
                &&& wc.spec_changes() == inner.spec_changes()
                &&& wc.spec_ignore() == ignore_matcher
            },
            r is Err <==> file_system_type == FileSystemType::Eden && !eden_supported,
            r matches Err(e) ==> e == StatusError::ScopeMisconfiguration,
    {
        let filesystem = match construct_file_system(root, file_system_type, inner, eden_supported) {
            Ok(fs) => fs,
            Err(e) => {
                return Err(e);
            },
        };
        Ok(WorkingCopy { treestate, tree_resolver, filesystem, ignore_matcher })
    }

    /// The owned flag store, for callers that read it directly.
    pub fn treestate(&self) -> (r: &TreeState)
        ensures
            *r == self.spec_treestate(),
    {
        &self.treestate
    }

    /// The newly-added paths, by aggregate-pruned traversal of the store.
    pub fn added_files(&self) -> (r: Vec<RepoPathBuf>)
        requires
            self.wf(),
        ensures
            path_views(r@) == added_views(self.spec_treestate().entries()),
    {
        self.treestate.visit_added()
    }

    /// The sparse working-set matcher: everything under a virtualized
    /// backend, else the union of each active parent's resolved profile.
    pub fn sparse_matcher(&self, manifests: &Vec<&TreeManifest>) -> (r: Matcher)
        ensures
            forall|p: Seq<u8>| #[trigger]
                spec_matches(r, p) == sparse_spec(
                    deref_manifests(manifests@),
                    self.spec_fs_type(),
                    p,
                ),
    {
        let ghost ms = deref_manifests(manifests@);
        if self.filesystem.file_system_type == FileSystemType::Eden {
            Matcher::Always
        } else {
            let n = manifests.len();
            let mut sm: Vec<Matcher> = Vec::new();
            let mut i: usize = 0;
            while i < n
                invariant
                    n == manifests@.len(),
                    ms == deref_manifests(manifests@),
                    i <= n,
                    sm@.len() == i,
                    forall|j: int, p: Seq<u8>|
                        0 <= j < i ==> #[trigger] spec_matches(sm@[j], p)
                            == manifest_sparse_matches(ms[j], p),
                decreases n - i,
            {
                match repo_matcher(manifests[i]) {
                    Some(m) => sm.push(m),
                    None => sm.push(Matcher::Always),
                }
                i += 1;
            }
            let ghost gsm = sm@;
            let r = union_of(sm);
            proof {
                assert forall|p: Seq<u8>| #[trigger]
                spec_matches(r, p) == sparse_spec(ms, self.spec_fs_type(), p) by {
                    if spec_matches(r, p) {
                        let j = choose|j: int|
                            0 <= j < gsm.len() && spec_matches(#[trigger] gsm[j], p);
                        assert(manifest_sparse_matches(ms[j], p));
                    }
                    if sparse_spec(ms, self.spec_fs_type(), p) {
                        let j = choose|j: int|
                            0 <= j < ms.len() && manifest_sparse_matches(#[trigger] ms[j], p);
                        assert(spec_matches(gsm[j], p));
                    }
                }
            }
            r
        }
    }

    /// One status computation: resolves the active manifests, builds the
    /// decomposed final matcher with the newly-added set folded in, fetches
    /// the backend's observations, and classifies. Fails exactly when a
    /// parent manifest cannot be resolved.
    pub fn status(&self, matcher: Matcher, last_write: u64, exhaustive: bool) -> (r: Result<
        Status,
        StatusError,
    >)
        requires
            self.wf(),
        ensures
            r matches Ok(st) ==> exists|msv: Seq<TreeManifest>, sm: StatusMatchers|
                {
                    &&& #[trigger] manifests_match(
                        self.spec_resolver(),
                        active_parent_ids(self.spec_treestate().spec_parents()),
                        msv,
                    )
                    &&& msv.len() >= 1
                    &&& #[trigger] status_matchers_ok(
                        sm,
                        matcher,
                        self.spec_ignore(),
                        msv,
                        self.spec_fs_type(),
                        self.spec_treestate().entries(),
                    )
                    &&& status_describes(
                        status_ctx(
                            msv[0].files@,
                            self.spec_treestate().entries(),
                            self.spec_changes(),
                            sm,
                            exhaustive,
                        ),
                        st,
                    )
                },
            r is Err ==> exists|i: int|
                0 <= i < active_parent_ids(self.spec_treestate().spec_parents()).len()
                    && self.spec_resolver().spec_get(
                    #[trigger] active_parent_ids(self.spec_treestate().spec_parents())[i],
                ) is None,
            r matches Err(e) ==> e == StatusError::ManifestUnavailable,
    {
        let manifests = match current_manifests(&self.treestate, &self.tree_resolver) {
            Ok(ms) => ms,
            Err(e) => {
                return Err(e);
            },
        };
        let ghost msv = deref_manifests(manifests@);
        let ghost entries = self.treestate.entries();

        let sparse = self.sparse_matcher(&manifests);
        let ghost guser = matcher;
        let ghost gsparse = sparse;
        let user_sparse = Matcher::Intersect(Box::new(matcher), Box::new(sparse));
        proof {
            assert forall|p: Seq<u8>| #[trigger]
            spec_matches(user_sparse, p) == (spec_matches(guser, p) && sparse_spec(
                msv,
                self.spec_fs_type(),
                p,
            )) by {
                assert(spec_matches(user_sparse, p) == (spec_matches(guser, p) && spec_matches(
                    gsparse,
                    p,
                )));
            }
        }

        let n = manifests.len();
        let mut tv: Vec<Matcher> = Vec::new();
        let mut i: usize = 0;
        while i < n
            invariant
                n == manifests@.len(),
                msv == deref_manifests(manifests@),
                i <= n,
                tv@.len() == i,
                forall|j: int, p: Seq<u8>|
                    0 <= j < i ==> #[trigger] spec_matches(tv@[j], p) == (mf_lookup(
                        msv[j].files@,
                        p,
                    ) is Some),
            decreases n - i,
        {
            tv.push(manifests[i].membership_matcher());
            i += 1;
        }
        let added = self.treestate.visit_added();
        let ghost gadded = added@;
        tv.push(Matcher::Exact(added));
        let ghost gtv = tv@;
        let tracked_or_added = union_of(tv);
        proof {
            assert forall|p: Seq<u8>| #[trigger]
            spec_matches(tracked_or_added, p) == tracked_spec(msv, entries, p) by {
                assert(spec_matches(gtv[n as int], p) == path_views(gadded).contains(p));
                if spec_matches(tracked_or_added, p) {
                    let j = choose|j: int|
                        0 <= j < gtv.len() && spec_matches(#[trigger] gtv[j], p);
                    if j < n {
                        assert(mf_lookup(msv[j].files@, p) is Some);
                    } else {
                        assert(added_views(entries).contains(p));
                    }
                    assert(tracked_spec(msv, entries, p));
                }
                if tracked_spec(msv, entries, p) {
                    if exists|j: int|
                        0 <= j < msv.len() && mf_lookup((#[trigger] msv[j]).files@, p) is Some {
                        let j = choose|j: int|
                            0 <= j < msv.len() && mf_lookup((#[trigger] msv[j]).files@, p) is Some;
                        assert(spec_matches(gtv[j], p));
                    } else {
                        assert(spec_matches(gtv[n as int], p));
                    }
                }
            }
        }

        let matchers = StatusMatchers {
            user_sparse,
            ignore: self.ignore_matcher.dup(),
            tracked_or_added,
        };
        let ghost gsm = matchers;

        let scope = Matcher::Difference(
            Box::new(matchers.user_sparse.dup()),
            Box::new(
                Matcher::Difference(
                    Box::new(matchers.ignore.dup()),
                    Box::new(matchers.tracked_or_added.dup()),
                ),
            ),
        );
        let pending = self.filesystem.inner.pending_changes(&scope, last_write);
        proof {
            assert(pending_views(pending@) == self.spec_changes());
        }
        let st = compute_status(manifests[0], &self.treestate, pending, &matchers, exhaustive);
        proof {
            assert(status_matchers_ok(
                gsm,
                guser,
                self.spec_ignore(),
                msv,
                self.spec_fs_type(),
                entries,
            ));
            assert(msv[0] == *manifests@[0]);
            assert(entries == self.spec_treestate().entries());
            assert(status_describes(
                status_ctx(
                    msv[0].files@,
                    self.spec_treestate().entries(),
                    self.spec_changes(),
                    gsm,
                    exhaustive,
                ),
                st,
            ));
            assert(manifests_match(
                self.spec_resolver(),
                active_parent_ids(self.spec_treestate().spec_parents()),
                msv,
            ));
        }
        Ok(st)
    }

    /// The copy map: every record flagged `COPIED`, as a pair of the path and
    /// its recorded source. A `COPIED` record with no source is a
    /// data-consistency failure of the whole call, never a silent skip.
    pub fn copymap(&self) -> (r: Result<Vec<(RepoPathBuf, RepoPathBuf)>, StatusError>)
        requires
            self.wf(),
        ensures
            r matches Ok(pairs) ==> all_have_sources(
                masked_views(self.spec_treestate().entries(), COPIED),
            ) && pair_views(pairs@) == copy_pairs(
                masked_views(self.spec_treestate().entries(), COPIED),
            ),
            r is Err ==> !all_have_sources(masked_views(self.spec_treestate().entries(), COPIED)),
            r matches Err(e) ==> e == StatusError::FlagStoreCorrupt,
    {
        let records = self.treestate.visit_by_state(COPIED);
        let ghost ms = masked_views(self.spec_treestate().entries(), COPIED);
        proof {
            lemma_file_views_len(records@);
            assert(ms.subrange(0, 0) =~= Seq::<EntryV>::empty());
        }
        let n = records.len();
        let mut out: Vec<(RepoPathBuf, RepoPathBuf)> = Vec::new();
        let mut i: usize = 0;
        while i < n
            invariant
                n == records@.len(),
                ms == masked_views(self.spec_treestate().entries(), COPIED),
                ms == crate::treestate::file_views(records@),
                ms.len() == n,
                forall|j: int| 0 <= j < n ==> #[trigger] ms[j] == crate::treestate::entry_view(
                    records@[j],
                ),
                i <= n,
                forall|j: int| 0 <= j < i ==> (#[trigger] ms[j]).copied is Some,
                pair_views(out@) == copy_pairs(ms.subrange(0, i as int)),
            decreases n - i,
        {
            proof {
                assert(ms.subrange(0, i + 1).drop_last() =~= ms.subrange(0, i as int));
                assert(ms.subrange(0, i + 1).last() == ms[i as int]);
            }
            match &records[i].state.copied {
                Some(src) => {
                    let ghost pre = out@;
                    out.push((records[i].path.dup(), src.dup()));
                    proof {
                        assert(out@.drop_last() =~= pre);
                        assert(pair_views(out@) =~= copy_pairs(ms.subrange(0, i + 1)));
                    }
                },
                None => {
                    proof {
                        assert((ms[i as int]).copied is None);
                        assert(!all_have_sources(ms));
                    }
                    return Err(StatusError::FlagStoreCorrupt);
                },
            }
            i += 1;
        }
        proof {
            assert(ms.subrange(0, n as int) =~= ms);
            assert(all_have_sources(ms));
        }
        Ok(out)
    }
}

/// Every copied record carries its source.
pub open spec fn all_have_sources(ms: Seq<EntryV>) -> bool {
    forall|i: int| 0 <= i < ms.len() ==> (#[trigger] ms[i]).copied is Some
}

/// The (path, source) pairs of copied records, in store order.
pub open spec fn copy_pairs(ms: Seq<EntryV>) -> Seq<(Seq<u8>, Seq<u8>)>
    decreases ms.len(),
{
    if ms.len() == 0 {
        Seq::empty()
    } else {
        copy_pairs(ms.drop_last()).push(
            (
                ms.last().path,
                match ms.last().copied {
                    Some(s) => s,
                    None => ms.last().path,
                },
            ),
        )
    }
}

/// The byte texts of a list of path pairs.
pub open spec fn pair_views(s: Seq<(RepoPathBuf, RepoPathBuf)>) -> Seq<(Seq<u8>, Seq<u8>)>
    decreases s.len(),
{
    if s.len() == 0 {
        Seq::empty()
    } else {
        pair_views(s.drop_last()).push((s.last().0@, s.last().1@))
    }
}

} // verus!
