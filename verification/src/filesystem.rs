//! Filesystem backends: each produces a finite, single-pass sequence of
//! on-disk change observations, scoped by an advisory matcher. Backends may
//! over-report; the composer re-checks every reported path against the exact
//! final matcher before classifying.

use vstd::prelude::*;

use crate::errors::BackendIoError;
use crate::manifest::FileMetadata;
use crate::matcher::Matcher;
use crate::path::RepoPathBuf;

verus! {

/// Which backend a working copy walks the disk with.
#[derive(Debug, PartialEq, Eq, Structural, Clone, Copy)]
pub enum FileSystemType {
    /// A direct walker that stats paths on disk.
    Normal,
    /// A walker fed by an external file-watching service.
    Watchman,
    /// A virtualized filesystem that tracks changes itself.
    Eden,
}

/// An ephemeral observation from a backend: consumed once per status call.
#[derive(Debug)]
pub enum PendingChange {
    /// The path is on disk and its content or metadata may differ: the
    /// observed metadata.
    Changed(RepoPathBuf, FileMetadata),
    /// The path is confirmed absent from disk.
    Deleted(RepoPathBuf),
}

/// The ghost value of one backend item: a change observation or a per-path
/// read error.
pub enum PendingItemV {
    /// The path's text and the observed metadata.
    Change(Seq<u8>, FileMetadata),
    /// The text of a path confirmed absent.
    Gone(Seq<u8>),
    /// The text of a per-path error message.
    Error(Seq<char>),
}

/// The ghost value of one backend item.
pub open spec fn item_view(x: Result<PendingChange, BackendIoError>) -> PendingItemV {
    match x {
        Ok(PendingChange::Changed(p, m)) => PendingItemV::Change(p@, m),
        Ok(PendingChange::Deleted(p)) => PendingItemV::Gone(p@),
        Err(e) => PendingItemV::Error(e.message@),
    }
}

/// The ghost values of a backend's items, in order.
pub open spec fn pending_views(s: Seq<Result<PendingChange, BackendIoError>>) -> Seq<PendingItemV>
    decreases s.len(),
{
    if s.len() == 0 {
        Seq::empty()
    } else {
        pending_views(s.drop_last()).push(item_view(s.last()))
    }
}

/// One view per item.
pub proof fn lemma_pending_views_len(s: Seq<Result<PendingChange, BackendIoError>>)
    ensures
        pending_views(s).len() == s.len(),
        forall|i: int| 0 <= i < s.len() ==> #[trigger] pending_views(s)[i] == item_view(s[i]),
    decreases s.len(),
{
    if s.len() > 0 {
        lemma_pending_views_len(s.drop_last());
    }
}

impl PendingChange {
    /// The path the observation is about.
    pub fn path(&self) -> (r: &RepoPathBuf)
        ensures
            match self {
                PendingChange::Changed(p, _) => r@ == p@,
                PendingChange::Deleted(p) => r@ == p@,
            },
    {
        match self {
            PendingChange::Changed(p, _) => p,
            PendingChange::Deleted(p) => p,
        }
    }

    /// A copy of the observation with the same ghost value.
    pub fn dup(&self) -> (r: PendingChange)
        ensures
            item_view(Ok(r)) == item_view(Ok(*self)),
    {
        match self {
            PendingChange::Changed(p, m) => PendingChange::Changed(p.dup(), *m),
            PendingChange::Deleted(p) => PendingChange::Deleted(p.dup()),
        }
    }
}

/// A copy of a backend item with the same ghost value.
pub fn dup_item(x: &Result<PendingChange, BackendIoError>) -> (r: Result<
    PendingChange,
    BackendIoError,
>)
    ensures
        item_view(r) == item_view(*x),
{
    match x {
        Ok(c) => Ok(c.dup()),
        Err(e) => Err(e.dup()),
    }
}

/// The backend capability: given an advisory scoping matcher and the moment
/// the working copy was last known written, produce the change observations.
/// What a backend reports is its own state's view; the composer re-filters.
pub trait PendingChanges {
    /// The observations the backend holds for the working copy.
    spec fn spec_changes(&self) -> Seq<PendingItemV>;

    /// Produces the observations, each a change or a per-path error.
    fn pending_changes(&self, matcher: &Matcher, last_write: u64) -> (r: Vec<
        Result<PendingChange, BackendIoError>,
    >)
        ensures
            pending_views(r@) == self.spec_changes(),
    ;
}

/// A backend over a fixed list of observations: the virtualized overlay's
/// shape, where the backend itself already tracks every change.
#[derive(Debug)]
pub struct StaticFileSystem {
    changes: Vec<Result<PendingChange, BackendIoError>>,
}

impl StaticFileSystem {
    /// A backend that will report exactly the given observations.
    pub fn new(changes: Vec<Result<PendingChange, BackendIoError>>) -> (r: StaticFileSystem)
        ensures
            r.spec_changes() == pending_views(changes@),
    {
        StaticFileSystem { changes }
    }
}

impl PendingChanges for StaticFileSystem {
    closed spec fn spec_changes(&self) -> Seq<PendingItemV> {
        pending_views(self.changes@)
    }

    fn pending_changes(&self, matcher: &Matcher, last_write: u64) -> (r: Vec<
        Result<PendingChange, BackendIoError>,
    >) {
        let n = self.changes.len();
        let mut out: Vec<Result<PendingChange, BackendIoError>> = Vec::new();
        proof {
            assert(self.changes@.subrange(0, 0) =~= Seq::<
                Result<PendingChange, BackendIoError>,
            >::empty());
            assert(pending_views(out@) =~= pending_views(self.changes@.subrange(0, 0)));
        }
        let mut i: usize = 0;
        while i < n
            invariant
                n == self.changes@.len(),
                i <= n,
                out@.len() == i,
                pending_views(out@) == pending_views(self.changes@.subrange(0, i as int)),
            decreases n - i,
        {
            let ghost pre = out@;
            out.push(dup_item(&self.changes[i]));
            proof {
                assert(out@.drop_last() =~= pre);
                assert(self.changes@.subrange(0, i + 1).drop_last() =~= self.changes@.subrange(
                    0,
                    i as int,
                ));
            }
            i += 1;
        }
        proof {
            assert(self.changes@.subrange(0, n as int) =~= self.changes@);
        }
        out
    }
}

} // verus!
