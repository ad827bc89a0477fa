//! The status composer: reconciles the first parent manifest, the flag
//! store, and the backend's change observations against the decomposed final
//! matcher, and assigns every visited path exactly one category.

use vstd::prelude::*;

use crate::errors::BackendIoError;
use crate::filestate::EXIST_NEXT;
use crate::filesystem::pending_views;
use crate::filesystem::PendingChange;
use crate::filesystem::PendingItemV;
use crate::manifest::mf_lookup;
use crate::manifest::ManifestEntry;
use crate::manifest::TreeManifest;
use crate::matcher::path_views;
use crate::matcher::spec_matches;
use crate::matcher::Matcher;
use crate::path::RepoPathBuf;
use crate::treestate::added_views;
use crate::treestate::ts_lookup;
use crate::treestate::EntryV;
use crate::treestate::TreeState;

verus! {

/// One of the mutually exclusive classifications of a visited path.
#[derive(Debug, PartialEq, Eq, Structural, Clone, Copy)]
pub enum Category {
    /// Not in the first parent, flagged as existing in the next state.
    Added,
    /// In the first parent, on disk, with different content or metadata.
    Modified,
    /// In the first parent, intentionally dropped from the next state.
    Removed,
    /// In the first parent, unexpectedly absent from disk.
    Deleted,
    /// Tracked nowhere, matched, and not hidden by ignore rules.
    Unknown,
    /// Excluded from the final matcher solely by an ignore rule.
    Ignored,
    /// Tracked and unchanged; reported only on exhaustive calls.
    Clean,
}

/// The decomposed predicate the composer classifies against: the caller's
/// request intersected with the sparse working set; the ignore rules; and
/// membership among tracked or newly-added paths, which ignore rules must
/// never hide.
#[derive(Debug)]
pub struct StatusMatchers {
    /// The caller's filter intersected with the sparse profile matcher.
    pub user_sparse: Matcher,
    /// The configured ignore rules.
    pub ignore: Matcher,
    /// Membership in any active manifest or in the newly-added set.
    pub tracked_or_added: Matcher,
}

/// The exact final predicate: a path is eligible when it satisfies the
/// caller's request and the sparse working set, and is not excluded by an
/// ignore rule, unless it is already tracked or newly added.
pub open spec fn final_matches(m: StatusMatchers, p: Seq<u8>) -> bool {
    spec_matches(m.user_sparse, p) && !(spec_matches(m.ignore, p) && !spec_matches(
        m.tracked_or_added,
        p,
    ))
}

impl StatusMatchers {
    /// The exact final predicate's answer for one path.
    pub fn matches_final(&self, p: &RepoPathBuf) -> (r: bool)
        ensures
            r == final_matches(*self, p@),
    {
        self.user_sparse.matches_file(p) && !(self.ignore.matches_file(p)
            && !self.tracked_or_added.matches_file(p))
    }
}

/// Everything one status computation classifies from: the first parent's
/// rows, the flag store's records, the backend's observations, the
/// decomposed matcher, and whether clean paths are wanted.
pub struct StatusCtx {
    /// The rows of the first parent manifest.
    pub p1: Seq<ManifestEntry>,
    /// The records of the flag store.
    pub entries: Seq<EntryV>,
    /// The backend's observations, in order.
    pub pending: Seq<PendingItemV>,
    /// The decomposed final matcher.
    pub matchers: StatusMatchers,
    /// Whether tracked, unchanged paths are reported as clean.
    pub exhaustive: bool,
}

/// The paths of the change observations, in order, errors left out.
pub open spec fn pending_paths(s: Seq<PendingItemV>) -> Seq<Seq<u8>>
    decreases s.len(),
{
    if s.len() == 0 {
        Seq::empty()
    } else {
        pending_paths(s.drop_last()) + (match s.last() {
            PendingItemV::Change(p, _) => seq![p],
            PendingItemV::Gone(p) => seq![p],
            PendingItemV::Error(_) => Seq::empty(),
        })
    }
}

/// The messages of the per-path errors among the observations, in order.
pub open spec fn error_views(s: Seq<PendingItemV>) -> Seq<Seq<char>>
    decreases s.len(),
{
    if s.len() == 0 {
        Seq::empty()
    } else {
        error_views(s.drop_last()) + (match s.last() {
            PendingItemV::Error(m) => seq![m],
            _ => Seq::empty(),
        })
    }
}

/// The messages of a list of collected errors.
pub open spec fn message_views(s: Seq<BackendIoError>) -> Seq<Seq<char>>
    decreases s.len(),
{
    if s.len() == 0 {
        Seq::empty()
    } else {
        message_views(s.drop_last()).push(s.last().message@)
    }
}

/// Each path once, keeping the first occurrence's position.
pub open spec fn dedup(s: Seq<Seq<u8>>) -> Seq<Seq<u8>>
    decreases s.len(),
{
    if s.len() == 0 {
        Seq::empty()
    } else {
        let d = dedup(s.drop_last());
        if d.contains(s.last()) {
            d
        } else {
            d.push(s.last())
        }
    }
}

/// The classification domain: every reported path and every newly-added
/// path, each once.
pub open spec fn visited_views(ctx: StatusCtx) -> Seq<Seq<u8>> {
    dedup(pending_paths(ctx.pending) + added_views(ctx.entries))
}

/// The first observation about a path, when the backend reported one.
pub open spec fn pending_lookup(s: Seq<PendingItemV>, p: Seq<u8>) -> Option<PendingItemV>
    decreases s.len(),
{
    if s.len() == 0 {
        None
    } else {
        match s[0] {
            PendingItemV::Change(q, m) => if q == p {
                Some(PendingItemV::Change(q, m))
            } else {
                pending_lookup(s.drop_first(), p)
            },
            PendingItemV::Gone(q) => if q == p {
                Some(PendingItemV::Gone(q))
            } else {
                pending_lookup(s.drop_first(), p)
            },
            PendingItemV::Error(_) => pending_lookup(s.drop_first(), p),
        }
    }
}

/// The one category of a visited path, or nothing when the path is excluded
/// from the result. The order of the tests is the order that settles
/// correctness.
pub open spec fn classify(ctx: StatusCtx, p: Seq<u8>) -> Option<Category> {
    let in_p1 = mf_lookup(ctx.p1, p) is Some;
    let rec = ts_lookup(ctx.entries, p);
    let pend = pending_lookup(ctx.pending, p);
    if !final_matches(ctx.matchers, p) {
        if spec_matches(ctx.matchers.user_sparse, p) && spec_matches(ctx.matchers.ignore, p)
            && !spec_matches(ctx.matchers.tracked_or_added, p) {
            Some(Category::Ignored)
        } else {
            None
        }
    } else if in_p1 && (rec matches Some(r) && r.bits & EXIST_NEXT == 0) {
        Some(Category::Removed)
    } else if in_p1 && (pend matches Some(PendingItemV::Gone(_))) {
        Some(Category::Deleted)
    } else if in_p1 && (pend matches Some(PendingItemV::Change(_, m)) && mf_lookup(ctx.p1, p)
        != Some(m)) {
        Some(Category::Modified)
    } else if !in_p1 && (rec matches Some(r) && r.bits & EXIST_NEXT != 0) {
        Some(Category::Added)
    } else if !in_p1 && rec is None {
        Some(Category::Unknown)
    } else if ctx.exhaustive {
        Some(Category::Clean)
    } else {
        None
    }
}

/// The visited paths classified into one category, in visiting order.
pub open spec fn select_category(vs: Seq<Seq<u8>>, ctx: StatusCtx, c: Category) -> Seq<Seq<u8>>
    decreases vs.len(),
{
    if vs.len() == 0 {
        Seq::empty()
    } else {
        select_category(vs.drop_last(), ctx, c) + (if classify(ctx, vs.last()) == Some(c) {
            seq![vs.last()]
        } else {
            Seq::<Seq<u8>>::empty()
        })
    }
}

/// The partition of the visited paths: one list per category, plus the
/// per-path backend errors collected beside the classification.
#[derive(Debug)]
pub struct Status {
    /// Paths not in the first parent, flagged for the next state.
    pub added: Vec<RepoPathBuf>,
    /// Tracked paths whose on-disk content or metadata differs.
    pub modified: Vec<RepoPathBuf>,
    /// Tracked paths intentionally dropped from the next state.
    pub removed: Vec<RepoPathBuf>,
    /// Tracked paths unexpectedly absent from disk.
    pub deleted: Vec<RepoPathBuf>,
    /// Untracked paths that no rule hides.
    pub unknown: Vec<RepoPathBuf>,
    /// Paths excluded solely by an ignore rule.
    pub ignored: Vec<RepoPathBuf>,
    /// Tracked, unchanged paths, on exhaustive calls.
    pub clean: Vec<RepoPathBuf>,
    /// Per-path backend errors, beside whatever classification succeeded.
    pub errors: Vec<BackendIoError>,
}

/// A path in a category satisfies that category's classification.
proof fn lemma_select_category_member(vs: Seq<Seq<u8>>, ctx: StatusCtx, c: Category, p: Seq<u8>)
    requires
        select_category(vs, ctx, c).contains(p),
    ensures
        classify(ctx, p) == Some(c),
    decreases vs.len(),
{
    if vs.len() > 0 {
        let d = select_category(vs.drop_last(), ctx, c);
        if classify(ctx, vs.last()) == Some(c) {
            let i = choose|i: int|
                0 <= i < select_category(vs, ctx, c).len() && select_category(vs, ctx, c)[i] == p;
            if i < d.len() {
                assert(d.contains(p));
                lemma_select_category_member(vs.drop_last(), ctx, c, p);
            } else {
                assert(p == vs.last());
            }
        } else {
            assert(select_category(vs, ctx, c) =~= d);
            lemma_select_category_member(vs.drop_last(), ctx, c, p);
        }
    }
}

/// Deduplication lists each path once.
proof fn lemma_dedup_nodup(s: Seq<Seq<u8>>, i: int, j: int)
    requires
        0 <= i < j < dedup(s).len(),
    ensures
        dedup(s)[i] != dedup(s)[j],
    decreases s.len(),
{
    if s.len() > 0 {
        let d = dedup(s.drop_last());
        if d.contains(s.last()) {
            lemma_dedup_nodup(s.drop_last(), i, j);
        } else {
            if j < d.len() {
                lemma_dedup_nodup(s.drop_last(), i, j);
            } else {
                assert(dedup(s)[j] == s.last());
                assert(dedup(s)[i] == d[i]);
                if d[i] == s.last() {
                    assert(d.contains(s.last()));
                }
            }
        }
    }
}

/// A selected path is one of the visited paths.
proof fn lemma_select_subset(vs: Seq<Seq<u8>>, ctx: StatusCtx, c: Category, p: Seq<u8>)
    requires
        select_category(vs, ctx, c).contains(p),
    ensures
        vs.contains(p),
    decreases vs.len(),
{
    if vs.len() > 0 {
        let d = select_category(vs.drop_last(), ctx, c);
        let i = choose|i: int|
            0 <= i < select_category(vs, ctx, c).len() && select_category(vs, ctx, c)[i] == p;
        if i < d.len() {
            assert(d.contains(p));
            lemma_select_subset(vs.drop_last(), ctx, c, p);
            let k = choose|k: int| 0 <= k < vs.drop_last().len() && vs.drop_last()[k] == p;
            assert(vs[k] == p);
        } else {
            assert(p == vs.last());
        }
    }
}

/// Selection out of a duplicate-free domain stays duplicate-free.
proof fn lemma_select_nodup(vs: Seq<Seq<u8>>, ctx: StatusCtx, c: Category, i: int, j: int)
    requires
        forall|a: int, b: int| 0 <= a < b < vs.len() ==> vs[a] != vs[b],
        0 <= i < j < select_category(vs, ctx, c).len(),
    ensures
        select_category(vs, ctx, c)[i] != select_category(vs, ctx, c)[j],
    decreases vs.len(),
{
    if vs.len() > 0 {
        let d = select_category(vs.drop_last(), ctx, c);
        assert(forall|a: int, b: int|
            0 <= a < b < vs.drop_last().len() ==> vs.drop_last()[a] != vs.drop_last()[b]);
        if j < d.len() {
            lemma_select_nodup(vs.drop_last(), ctx, c, i, j);
        } else if classify(ctx, vs.last()) == Some(c) {
            assert(select_category(vs, ctx, c)[j] == vs.last());
            assert(select_category(vs, ctx, c)[i] == d[i]);
            if d[i] == vs.last() {
                assert(d.contains(vs.last()));
                lemma_select_subset(vs.drop_last(), ctx, c, vs.last());
                let k = choose|k: int|
                    0 <= k < vs.drop_last().len() && vs.drop_last()[k] == vs.last();
                assert(vs[k] == vs[vs.len() - 1]);
            }
        }
    }
}

/// Law (exclusivity, within one category): a result's category lists each
/// path at most once.
pub proof fn lemma_category_lists_once(ctx: StatusCtx, c: Category, i: int, j: int)
    requires
        0 <= i < j < select_category(visited_views(ctx), ctx, c).len(),
    ensures
        select_category(visited_views(ctx), ctx, c)[i] != select_category(
            visited_views(ctx),
            ctx,
            c,
        )[j],
{
    let vs = visited_views(ctx);
    assert forall|a: int, b: int| 0 <= a < b < vs.len() implies vs[a] != vs[b] by {
        lemma_dedup_nodup(pending_paths(ctx.pending) + added_views(ctx.entries), a, b);
    }
    lemma_select_nodup(vs, ctx, c, i, j);
}

/// Law (exclusivity): every path in a result belongs to exactly one
/// category; the same path never stands in two.
pub proof fn lemma_exclusivity(ctx: StatusCtx, p: Seq<u8>, c1: Category, c2: Category)
    requires
        select_category(visited_views(ctx), ctx, c1).contains(p),
        select_category(visited_views(ctx), ctx, c2).contains(p),
    ensures
        c1 == c2,
{
    lemma_select_category_member(visited_views(ctx), ctx, c1, p);
    lemma_select_category_member(visited_views(ctx), ctx, c2, p);
}

/// The tracked-or-added matcher covers every path the first parent records
/// and every path flagged as existing in the next state.
pub open spec fn ignore_shield(ctx: StatusCtx) -> bool {
    forall|p: Seq<u8>|
        (mf_lookup(ctx.p1, p) is Some || (ts_lookup(ctx.entries, p) matches Some(r) && r.bits
            & EXIST_NEXT != 0)) ==> #[trigger] spec_matches(ctx.matchers.tracked_or_added, p)
}

/// Law (ignore-override): a path tracked in the first parent, or flagged as
/// existing in the next state, is never classified `Ignored`, however many
/// ignore rules it matches.
pub proof fn lemma_ignore_override(ctx: StatusCtx, p: Seq<u8>)
    requires
        ignore_shield(ctx),
        mf_lookup(ctx.p1, p) is Some || (ts_lookup(ctx.entries, p) matches Some(r) && r.bits
            & EXIST_NEXT != 0),
    ensures
        classify(ctx, p) != Some(Category::Ignored),
{
}

/// Law (idempotence): two computations over the same manifest, store,
/// observations, matcher, and mode classify every category and every error
/// identically.
pub proof fn lemma_status_idempotent(ctx: StatusCtx, r1: Status, r2: Status)
    requires
        status_describes(ctx, r1),
        status_describes(ctx, r2),
    ensures
        path_views(r1.added@) == path_views(r2.added@),
        path_views(r1.modified@) == path_views(r2.modified@),
        path_views(r1.removed@) == path_views(r2.removed@),
        path_views(r1.deleted@) == path_views(r2.deleted@),
        path_views(r1.unknown@) == path_views(r2.unknown@),
        path_views(r1.ignored@) == path_views(r2.ignored@),
        path_views(r1.clean@) == path_views(r2.clean@),
        message_views(r1.errors@) == message_views(r2.errors@),
{
}

/// Two matcher bundles that answer alike on every path.
pub open spec fn matchers_equiv(a: StatusMatchers, b: StatusMatchers) -> bool {
    &&& forall|p: Seq<u8>| #[trigger]
        spec_matches(a.user_sparse, p) == spec_matches(b.user_sparse, p)
    &&& forall|p: Seq<u8>| #[trigger] spec_matches(a.ignore, p) == spec_matches(b.ignore, p)
    &&& forall|p: Seq<u8>| #[trigger]
        spec_matches(a.tracked_or_added, p) == spec_matches(b.tracked_or_added, p)
}

/// Matcher bundles that answer alike classify alike.
proof fn lemma_classify_congruent(ctx1: StatusCtx, ctx2: StatusCtx, p: Seq<u8>)
    requires
        ctx1.p1 == ctx2.p1,
        ctx1.entries == ctx2.entries,
        ctx1.pending == ctx2.pending,
        ctx1.exhaustive == ctx2.exhaustive,
        matchers_equiv(ctx1.matchers, ctx2.matchers),
    ensures
        classify(ctx1, p) == classify(ctx2, p),
{
}

/// Selection agrees category by category under equivalent matchers.
proof fn lemma_select_congruent(vs: Seq<Seq<u8>>, ctx1: StatusCtx, ctx2: StatusCtx, c: Category)
    requires
        ctx1.p1 == ctx2.p1,
        ctx1.entries == ctx2.entries,
        ctx1.pending == ctx2.pending,
        ctx1.exhaustive == ctx2.exhaustive,
        matchers_equiv(ctx1.matchers, ctx2.matchers),
    ensures
        select_category(vs, ctx1, c) == select_category(vs, ctx2, c),
    decreases vs.len(),
{
    if vs.len() > 0 {
        lemma_select_congruent(vs.drop_last(), ctx1, ctx2, c);
        lemma_classify_congruent(ctx1, ctx2, vs.last());
    }
}

/// Law (idempotence across calls): two computations over the same manifest,
/// store, observations, and mode, with matcher bundles that answer alike,
/// classify every category and every error identically.
pub proof fn lemma_status_idempotent_calls(
    ctx1: StatusCtx,
    ctx2: StatusCtx,
    r1: Status,
    r2: Status,
)
    requires
        ctx1.p1 == ctx2.p1,
        ctx1.entries == ctx2.entries,
        ctx1.pending == ctx2.pending,
        ctx1.exhaustive == ctx2.exhaustive,
        matchers_equiv(ctx1.matchers, ctx2.matchers),
        status_describes(ctx1, r1),
        status_describes(ctx2, r2),
    ensures
        path_views(r1.added@) == path_views(r2.added@),
        path_views(r1.modified@) == path_views(r2.modified@),
        path_views(r1.removed@) == path_views(r2.removed@),
        path_views(r1.deleted@) == path_views(r2.deleted@),
        path_views(r1.unknown@) == path_views(r2.unknown@),
        path_views(r1.ignored@) == path_views(r2.ignored@),
        path_views(r1.clean@) == path_views(r2.clean@),
        message_views(r1.errors@) == message_views(r2.errors@),
{
    assert(visited_views(ctx1) == visited_views(ctx2));
    lemma_select_congruent(visited_views(ctx1), ctx1, ctx2, Category::Added);
    lemma_select_congruent(visited_views(ctx1), ctx1, ctx2, Category::Modified);
    lemma_select_congruent(visited_views(ctx1), ctx1, ctx2, Category::Removed);
    lemma_select_congruent(visited_views(ctx1), ctx1, ctx2, Category::Deleted);
    lemma_select_congruent(visited_views(ctx1), ctx1, ctx2, Category::Unknown);
    lemma_select_congruent(visited_views(ctx1), ctx1, ctx2, Category::Ignored);
    lemma_select_congruent(visited_views(ctx1), ctx1, ctx2, Category::Clean);
}

/// The result is exactly the classification of the context: each category
/// lists the visited paths it classifies, in visiting order, and the errors
/// are the backend's, in order.
pub open spec fn status_describes(ctx: StatusCtx, r: Status) -> bool {
    &&& path_views(r.added@) == select_category(visited_views(ctx), ctx, Category::Added)
    &&& path_views(r.modified@) == select_category(visited_views(ctx), ctx, Category::Modified)
    &&& path_views(r.removed@) == select_category(visited_views(ctx), ctx, Category::Removed)
    &&& path_views(r.deleted@) == select_category(visited_views(ctx), ctx, Category::Deleted)
    &&& path_views(r.unknown@) == select_category(visited_views(ctx), ctx, Category::Unknown)
    &&& path_views(r.ignored@) == select_category(visited_views(ctx), ctx, Category::Ignored)
    &&& path_views(r.clean@) == select_category(visited_views(ctx), ctx, Category::Clean)
    &&& message_views(r.errors@) == error_views(ctx.pending)
}

/// The context one call classifies from.
pub open spec fn status_ctx(
    p1: Seq<ManifestEntry>,
    entries: Seq<EntryV>,
    pending: Seq<PendingItemV>,
    matchers: StatusMatchers,
    exhaustive: bool,
) -> StatusCtx {
    StatusCtx { p1, entries, pending, matchers, exhaustive }
}

/// The first observation about a path, scanning the reported items in order.
fn pending_lookup_exec<'a>(
    pending: &'a Vec<Result<PendingChange, BackendIoError>>,
    p: &RepoPathBuf,
) -> (r: Option<&'a PendingChange>)
    ensures
        match r {
            Some(c) => pending_lookup(pending_views(pending@), p@) == Some(
                crate::filesystem::item_view(Ok(*c)),
            ),
            None => pending_lookup(pending_views(pending@), p@) is None,
        },
{
    let ghost views = pending_views(pending@);
    proof {
        crate::filesystem::lemma_pending_views_len(pending@);
        assert(views.subrange(0, views.len() as int) =~= views);
    }
    let n = pending.len();
    let mut i: usize = 0;
    while i < n
        invariant
            n == pending@.len(),
            views == pending_views(pending@),
            views.len() == n,
            forall|j: int| 0 <= j < n ==> #[trigger] views[j] == crate::filesystem::item_view(
                pending@[j],
            ),
            i <= n,
            pending_lookup(views, p@) == pending_lookup(
                views.subrange(i as int, n as int),
                p@,
            ),
        decreases n - i,
    {
        proof {
            assert(views.subrange(i as int, n as int).drop_first() =~= views.subrange(
                i + 1,
                n as int,
            ));
            assert(views.subrange(i as int, n as int)[0] == views[i as int]);
        }
        match &pending[i] {
            Ok(c) => {
                if c.path().path_eq(p) {
                    return Some(c);
                }
            },
            Err(_) => {},
        }
        i += 1;
    }
    None
}

/// One path's category, read from the same sources the specification reads.
fn classify_exec(
    p1_manifest: &TreeManifest,
    treestate: &TreeState,
    pending: &Vec<Result<PendingChange, BackendIoError>>,
    matchers: &StatusMatchers,
    exhaustive: bool,
    p: &RepoPathBuf,
) -> (r: Option<Category>)
    ensures
        r == classify(
            status_ctx(
                p1_manifest.files@,
                treestate.entries(),
                pending_views(pending@),
                *matchers,
                exhaustive,
            ),
            p@,
        ),
{
    let in_p1 = p1_manifest.contains(p);
    let rec = treestate.get(p);
    let pend = pending_lookup_exec(pending, p);
    let us = matchers.user_sparse.matches_file(p);
    let ig = matchers.ignore.matches_file(p);
    let tr = matchers.tracked_or_added.matches_file(p);
    if !(us && !(ig && !tr)) {
        if us && ig && !tr {
            Some(Category::Ignored)
        } else {
            None
        }
    } else if in_p1 && (match rec {
        Some(r) => r.state & EXIST_NEXT == 0,
        None => false,
    }) {
        Some(Category::Removed)
    } else if in_p1 && (match pend {
        Some(PendingChange::Deleted(_)) => true,
        _ => false,
    }) {
        Some(Category::Deleted)
    } else if in_p1 && (match pend {
        Some(PendingChange::Changed(_, m)) => (match p1_manifest.get(p) {
            Some(mm) => mm != *m,
            None => true,
        }),
        _ => false,
    }) {
        Some(Category::Modified)
    } else if !in_p1 && (match rec {
        Some(r) => r.state & EXIST_NEXT != 0,
        None => false,
    }) {
        Some(Category::Added)
    } else if !in_p1 && rec.is_none() {
        Some(Category::Unknown)
    } else if exhaustive {
        Some(Category::Clean)
    } else {
        None
    }
}

/// Classifies every visited path — the reported paths and the newly-added
/// set — into exactly one category, re-checking the exact final matcher for
/// each, and collects the backend's per-path errors beside the result.
pub fn compute_status(
    p1_manifest: &TreeManifest,
    treestate: &TreeState,
    pending_changes: Vec<Result<PendingChange, BackendIoError>>,
    matchers: &StatusMatchers,
    exhaustive: bool,
) -> (r: Status)
    requires
        treestate.wf(),
    ensures
        status_describes(
            status_ctx(
                p1_manifest.files@,
                treestate.entries(),
                pending_views(pending_changes@),
                *matchers,
                exhaustive,
            ),
            r,
        ),
{
    let ghost ctx = status_ctx(
        p1_manifest.files@,
        treestate.entries(),
        pending_views(pending_changes@),
        *matchers,
        exhaustive,
    );
    let added = treestate.visit_added();
    let ghost pp = pending_paths(ctx.pending);
    let ghost av = added_views(treestate.entries());

    // The classification domain, each path once, reported paths first.
    let mut visited: Vec<RepoPathBuf> = Vec::new();
    let n = pending_changes.len();
    let mut i: usize = 0;
    proof {
        crate::filesystem::lemma_pending_views_len(pending_changes@);
        assert(pending_changes@.subrange(0, 0) =~= Seq::<
            Result<PendingChange, BackendIoError>,
        >::empty());
        assert(path_views(visited@) =~= dedup(
            pending_paths(pending_views(pending_changes@.subrange(0, 0))),
        ));
    }
    while i < n
        invariant
            n == pending_changes@.len(),
            i <= n,
            path_views(visited@) == dedup(
                pending_paths(pending_views(pending_changes@.subrange(0, i as int))),
            ),
        decreases n - i,
    {
        let ghost prefix = pending_changes@.subrange(0, i as int);
        let ghost step = pending_changes@.subrange(0, i + 1);
        proof {
            assert(step.drop_last() =~= prefix);
            assert(pending_views(step).drop_last() =~= pending_views(prefix));
            crate::filesystem::lemma_pending_views_len(step);
            crate::filesystem::lemma_pending_views_len(prefix);
        }
        match &pending_changes[i] {
            Ok(c) => {
                let ghost pre = visited@;
                let cp = c.path();
                let ghost q = cp@;
                proof {
                    assert(step.last() == pending_changes@[i as int]);
                    assert(pending_views(step).last() == crate::filesystem::item_view(
                        pending_changes@[i as int],
                    ));
                    assert(pending_paths(pending_views(step)) =~= pending_paths(
                        pending_views(prefix),
                    ) + seq![q]);
                    assert((pending_paths(pending_views(prefix)) + seq![q]).drop_last()
                        =~= pending_paths(pending_views(prefix)));
                }
                if !crate::matcher::contains_path(&visited, cp) {
                    let d = cp.dup();
                    visited.push(d);
                    proof {
                        assert(path_views(visited@) =~= path_views(pre).push(q));
                    }
                }
                proof {
                    assert(path_views(visited@) =~= dedup(pending_paths(pending_views(step))));
                }
            },
            Err(_) => {
                proof {
                    assert(pending_paths(pending_views(step)) =~= pending_paths(
                        pending_views(prefix),
                    ));
                }
            },
        }
        i += 1;
    }
    proof {
        assert(pending_changes@.subrange(0, n as int) =~= pending_changes@);
    }
    let na = added.len();
    let mut k: usize = 0;
    proof {
        assert(av.subrange(0, 0) =~= Seq::<Seq<u8>>::empty());
        assert(pp + av.subrange(0, 0) =~= pp);
        assert(path_views(added@).subrange(0, 0) =~= Seq::<Seq<u8>>::empty());
    }
    while k < na
        invariant
            na == added@.len(),
            k <= na,
            path_views(added@) == av,
            pp == pending_paths(pending_views(pending_changes@)),
            path_views(visited@) == dedup(pp + av.subrange(0, k as int)),
        decreases na - k,
    {
        let ghost pre = visited@;
        proof {
            assert(av.subrange(0, k + 1).drop_last() =~= av.subrange(0, k as int));
            assert(av.subrange(0, k + 1).last() == path_views(added@)[k as int]);
            assert((pp + av.subrange(0, k + 1)).drop_last() =~= pp + av.subrange(0, k as int));
        }
        if !crate::matcher::contains_path(&visited, &added[k]) {
            visited.push(added[k].dup());
            proof {
                crate::matcher::lemma_path_views_push(pre, visited@.last());
            }
        }
        proof {
            assert(path_views(visited@) =~= dedup(pp + av.subrange(0, k + 1)));
        }
        k += 1;
    }
    proof {
        assert(av.subrange(0, na as int) =~= av);
        assert(path_views(visited@) == visited_views(ctx));
    }

    // Assign each visited path its one category.
    let mut r = Status {
        added: Vec::new(),
        modified: Vec::new(),
        removed: Vec::new(),
        deleted: Vec::new(),
        unknown: Vec::new(),
        ignored: Vec::new(),
        clean: Vec::new(),
        errors: Vec::new(),
    };
    let ghost vs = path_views(visited@);
    let nv = visited.len();
    let mut v: usize = 0;
    proof {
        assert(vs.subrange(0, 0) =~= Seq::<Seq<u8>>::empty());
        assert forall|c: Category| #[trigger]
        select_category(vs.subrange(0, 0), ctx, c) =~= Seq::<Seq<u8>>::empty() by {}
    }
    while v < nv
        invariant
            nv == visited@.len(),
            v <= nv,
            vs == path_views(visited@),
            ctx == status_ctx(
                p1_manifest.files@,
                treestate.entries(),
                pending_views(pending_changes@),
                *matchers,
                exhaustive,
            ),
            path_views(r.added@) == select_category(vs.subrange(0, v as int), ctx, Category::Added),
            path_views(r.modified@) == select_category(
                vs.subrange(0, v as int),
                ctx,
                Category::Modified,
            ),
            path_views(r.removed@) == select_category(
                vs.subrange(0, v as int),
                ctx,
                Category::Removed,
            ),
            path_views(r.deleted@) == select_category(
                vs.subrange(0, v as int),
                ctx,
                Category::Deleted,
            ),
            path_views(r.unknown@) == select_category(
                vs.subrange(0, v as int),
                ctx,
                Category::Unknown,
            ),
            path_views(r.ignored@) == select_category(
                vs.subrange(0, v as int),
                ctx,
                Category::Ignored,
            ),
            path_views(r.clean@) == select_category(vs.subrange(0, v as int), ctx, Category::Clean),
            r.errors@.len() == 0,
        decreases nv - v,
    {
        let cat = classify_exec(
            p1_manifest,
            treestate,
            &pending_changes,
            matchers,
            exhaustive,
            &visited[v],
        );
        proof {
            assert(vs.subrange(0, v + 1).drop_last() =~= vs.subrange(0, v as int));
            assert(vs.subrange(0, v + 1).last() == vs[v as int]);
            assert(vs[v as int] == visited@[v as int]@);
        }
        match cat {
            Some(Category::Added) => r.added.push(visited[v].dup()),
            Some(Category::Modified) => r.modified.push(visited[v].dup()),
            Some(Category::Removed) => r.removed.push(visited[v].dup()),
            Some(Category::Deleted) => r.deleted.push(visited[v].dup()),
            Some(Category::Unknown) => r.unknown.push(visited[v].dup()),
            Some(Category::Ignored) => r.ignored.push(visited[v].dup()),
            Some(Category::Clean) => r.clean.push(visited[v].dup()),
            None => {},
        }
        proof {
            assert(path_views(r.added@) =~= select_category(
                vs.subrange(0, v + 1),
                ctx,
                Category::Added,
            ));
            assert(path_views(r.modified@) =~= select_category(
                vs.subrange(0, v + 1),
                ctx,
                Category::Modified,
            ));
            assert(path_views(r.removed@) =~= select_category(
                vs.subrange(0, v + 1),
                ctx,
                Category::Removed,
            ));
            assert(path_views(r.deleted@) =~= select_category(
                vs.subrange(0, v + 1),
                ctx,
                Category::Deleted,
            ));
            assert(path_views(r.unknown@) =~= select_category(
                vs.subrange(0, v + 1),
                ctx,
                Category::Unknown,
            ));
            assert(path_views(r.ignored@) =~= select_category(
                vs.subrange(0, v + 1),
                ctx,
                Category::Ignored,
            ));
            assert(path_views(r.clean@) =~= select_category(
                vs.subrange(0, v + 1),
                ctx,
                Category::Clean,
            ));
        }
        v += 1;
    }
    proof {
        assert(vs.subrange(0, nv as int) =~= vs);
    }

    // Collect the per-path errors, in reported order.
    let mut e: usize = 0;
    proof {
        crate::filesystem::lemma_pending_views_len(pending_changes@);
        assert(pending_changes@.subrange(0, 0) =~= Seq::<
            Result<PendingChange, BackendIoError>,
        >::empty());
        assert(message_views(r.errors@) =~= error_views(
            pending_views(pending_changes@.subrange(0, 0)),
        ));
    }
    while e < n
        invariant
            n == pending_changes@.len(),
            e <= n,
            message_views(r.errors@) == error_views(
                pending_views(pending_changes@.subrange(0, e as int)),
            ),
            path_views(r.added@) == select_category(visited_views(ctx), ctx, Category::Added),
            path_views(r.modified@) == select_category(visited_views(ctx), ctx, Category::Modified),
            path_views(r.removed@) == select_category(visited_views(ctx), ctx, Category::Removed),
            path_views(r.deleted@) == select_category(visited_views(ctx), ctx, Category::Deleted),
            path_views(r.unknown@) == select_category(visited_views(ctx), ctx, Category::Unknown),
            path_views(r.ignored@) == select_category(visited_views(ctx), ctx, Category::Ignored),
            path_views(r.clean@) == select_category(visited_views(ctx), ctx, Category::Clean),
        decreases n - e,
    {
        let ghost prefix = pending_changes@.subrange(0, e as int);
        let ghost step = pending_changes@.subrange(0, e + 1);
        proof {
            assert(step.drop_last() =~= prefix);
            assert(pending_views(step).drop_last() =~= pending_views(prefix));
            crate::filesystem::lemma_pending_views_len(step);
            crate::filesystem::lemma_pending_views_len(prefix);
        }
        match &pending_changes[e] {
            Err(err) => {
                let ghost pre = r.errors@;
                r.errors.push(err.dup());
                proof {
                    assert(r.errors@.drop_last() =~= pre);
                    assert(message_views(r.errors@) =~= error_views(pending_views(step)));
                }
            },
            Ok(_) => {
                proof {
                    assert(error_views(pending_views(step)) =~= error_views(
                        pending_views(prefix),
                    ));
                }
            },
        }
        e += 1;
    }
    proof {
        assert(pending_changes@.subrange(0, n as int) =~= pending_changes@);
    }
    r
}

} // verus!
