//! Composable path predicates with directory-level short-circuiting: leaf
//! matchers over exact path sets and directory prefixes, and the `Union`,
//! `Intersect` and `Difference` composites, each answering both "does this
//! path match" and "could anything below this directory match".

use vstd::prelude::*;

use crate::path::dir_contains;
use crate::path::RepoPathBuf;

verus! {

/// The views of a sequence of paths.
pub open spec fn path_views(s: Seq<RepoPathBuf>) -> Seq<Seq<u8>> {
    s.map_values(|p: RepoPathBuf| p@)
}

/// Appending a path appends its view.
pub proof fn lemma_path_views_push(s: Seq<RepoPathBuf>, p: RepoPathBuf)
    ensures
        path_views(s.push(p)) =~= path_views(s) + seq![p@],
{
}

/// Answer of a matcher for a whole directory; used only to prune recursive
/// walks, never to settle a final classification.
#[derive(Debug, PartialEq, Eq, Structural, Clone, Copy)]
pub enum DirectoryMatch {
    /// Every path below the directory matches.
    Everything,
    /// No path below the directory matches.
    Nothing,
    /// The walk must descend to decide.
    ShouldTraverse,
}

/// A composable, pure predicate over repository paths.
#[derive(Debug)]
pub enum Matcher {
    /// Matches every path.
    Always,
    /// Matches no path.
    Never,
    /// Matches exactly the listed paths.
    Exact(Vec<RepoPathBuf>),
    /// Matches every path strictly below one of the listed directories.
    DirPrefix(Vec<RepoPathBuf>),
    /// Matches the paths either side matches.
    Union(Box<Matcher>, Box<Matcher>),
    /// Matches the paths both sides match.
    Intersect(Box<Matcher>, Box<Matcher>),
    /// Matches the paths the first side matches and the second does not.
    Difference(Box<Matcher>, Box<Matcher>),
}

/// `p` lies strictly below one of the listed directories.
pub open spec fn some_dir_contains(dirs: Seq<RepoPathBuf>, p: Seq<u8>) -> bool {
    exists|i: int| 0 <= i < dirs.len() && dir_contains(#[trigger] dirs[i]@, p)
}

/// What a matcher says of a single path.
pub open spec fn spec_matches(m: Matcher, p: Seq<u8>) -> bool
    decreases m,
{
    match m {
        Matcher::Always => true,
        Matcher::Never => false,
        Matcher::Exact(set) => path_views(set@).contains(p),
        Matcher::DirPrefix(dirs) => some_dir_contains(dirs@, p),
        Matcher::Union(a, b) => spec_matches(*a, p) || spec_matches(*b, p),
        Matcher::Intersect(a, b) => spec_matches(*a, p) && spec_matches(*b, p),
        Matcher::Difference(a, b) => spec_matches(*a, p) && !spec_matches(*b, p),
    }
}

/// One of the listed paths has the same text as `p`.
pub fn contains_path(v: &Vec<RepoPathBuf>, p: &RepoPathBuf) -> (r: bool)
    ensures
        r == path_views(v@).contains(p@),
{
    let n = v.len();
    let mut i: usize = 0;
    while i < n
        invariant
            n == v@.len(),
            i <= n,
            forall|j: int| 0 <= j < i ==> (#[trigger] v@[j])@ != p@,
        decreases n - i,
    {
        if v[i].path_eq(p) {
            proof {
                assert(path_views(v@)[i as int] == p@);
            }
            return true;
        }
        i += 1;
    }
    proof {
        assert(forall|j: int| 0 <= j < v@.len() ==> #[trigger] path_views(v@)[j] != p@);
    }
    false
}

/// `p` lies strictly below one of the listed directories.
fn under_some_dir(dirs: &Vec<RepoPathBuf>, p: &RepoPathBuf) -> (r: bool)
    ensures
        r == some_dir_contains(dirs@, p@),
{
    let n = dirs.len();
    let mut i: usize = 0;
    while i < n
        invariant
            n == dirs@.len(),
            i <= n,
            forall|j: int| 0 <= j < i ==> !dir_contains(#[trigger] dirs@[j]@, p@),
        decreases n - i,
    {
        if p.starts_with_dir(&dirs[i]) {
            return true;
        }
        i += 1;
    }
    false
}

/// Both directories stand at a component boundary of `p`, so the shorter one
/// contains the longer one, unless they are equal.
proof fn lemma_dir_prefix_order(d: Seq<u8>, r: Seq<u8>, p: Seq<u8>)
    requires
        d.len() > 0,
        r.len() > 0,
        dir_contains(d, p),
        dir_contains(r, p),
    ensures
        r == d || dir_contains(r, d) || dir_contains(d, r),
{
    if r.len() == d.len() {
        assert(r =~= d);
    } else if r.len() < d.len() {
        assert(d[r.len() as int] == p[r.len() as int]);
        assert(d.subrange(0, r.len() as int) =~= r);
        assert(dir_contains(r, d));
    } else {
        assert(r[d.len() as int] == p[d.len() as int]);
        assert(r.subrange(0, d.len() as int) =~= d);
        assert(dir_contains(d, r));
    }
}

/// Containment of directories carries over to the paths below them.
proof fn lemma_dir_contains_trans(a: Seq<u8>, b: Seq<u8>, p: Seq<u8>)
    requires
        dir_contains(a, b),
        dir_contains(b, p),
    ensures
        dir_contains(a, p),
{
    if a.len() > 0 {
        assert(p.subrange(0, a.len() as int) =~= b.subrange(0, a.len() as int));
        assert(p[a.len() as int] == b[a.len() as int]);
    }
}

/// No path below `dir` matches `m`.
pub open spec fn dir_answer_nothing(m: Matcher, dir: Seq<u8>) -> bool {
    forall|p: Seq<u8>| dir_contains(dir, p) ==> !(#[trigger] spec_matches(m, p))
}

/// Every path below `dir` matches `m`.
pub open spec fn dir_answer_everything(m: Matcher, dir: Seq<u8>) -> bool {
    forall|p: Seq<u8>| dir_contains(dir, p) ==> #[trigger] spec_matches(m, p)
}

impl Matcher {
    /// The matcher's answer for one path.
    pub fn matches_file(&self, p: &RepoPathBuf) -> (r: bool)
        ensures
            r == spec_matches(*self, p@),
        decreases *self,
    {
        match self {
            Matcher::Always => true,
            Matcher::Never => false,
            Matcher::Exact(set) => contains_path(set, p),
            Matcher::DirPrefix(dirs) => under_some_dir(dirs, p),
            Matcher::Union(a, b) => a.matches_file(p) || b.matches_file(p),
            Matcher::Intersect(a, b) => a.matches_file(p) && b.matches_file(p),
            Matcher::Difference(a, b) => a.matches_file(p) && !b.matches_file(p),
        }
    }

    /// The matcher's answer for a whole directory. `Nothing` and `Everything`
    /// are sound: they promise what every path below the directory does.
    pub fn matches_directory(&self, dir: &RepoPathBuf) -> (r: DirectoryMatch)
        ensures
            r == DirectoryMatch::Nothing ==> dir_answer_nothing(*self, dir@),
            r == DirectoryMatch::Everything ==> dir_answer_everything(*self, dir@),
        decreases *self,
    {
        match self {
            Matcher::Always => DirectoryMatch::Everything,
            Matcher::Never => DirectoryMatch::Nothing,
            Matcher::Exact(set) => {
                if exists_path_below(set, dir) {
                    DirectoryMatch::ShouldTraverse
                } else {
                    proof {
                        assert forall|p: Seq<u8>| dir_contains(dir@, p) implies !spec_matches(
                            Matcher::Exact(*set),
                            p,
                        ) by {
                            if path_views(set@).contains(p) {
                                let i = choose|i: int|
                                    0 <= i < path_views(set@).len() && path_views(set@)[i] == p;
                                assert((#[trigger] set@[i])@ == p);
                            }
                        }
                    }
                    DirectoryMatch::Nothing
                }
            },
            Matcher::DirPrefix(dirs) => {
                if dir.as_bytes().len() == 0 {
                    if dirs.len() == 0 {
                        DirectoryMatch::Nothing
                    } else {
                        DirectoryMatch::ShouldTraverse
                    }
                } else if covered_by_some_dir(dirs, dir) {
                    proof {
                        let i = choose|i: int|
                            0 <= i < dirs@.len() && ((#[trigger] dirs@[i])@ == dir@ || dir_contains(
                                dirs@[i]@,
                                dir@,
                            ));
                        assert forall|p: Seq<u8>| dir_contains(dir@, p) implies spec_matches(
                            Matcher::DirPrefix(*dirs),
                            p,
                        ) by {
                            if dirs@[i]@ != dir@ {
                                lemma_dir_contains_trans(dirs@[i]@, dir@, p);
                            }
                            assert(dir_contains(dirs@[i]@, p));
                        }
                    }
                    DirectoryMatch::Everything
                } else if exists_dir_related(dirs, dir) {
                    DirectoryMatch::ShouldTraverse
                } else {
                    proof {
                        assert forall|p: Seq<u8>| dir_contains(dir@, p) implies !spec_matches(
                            Matcher::DirPrefix(*dirs),
                            p,
                        ) by {
                            if spec_matches(Matcher::DirPrefix(*dirs), p) {
                                let i = choose|i: int|
                                    0 <= i < dirs@.len() && dir_contains(#[trigger] dirs@[i]@, p);
                                if dirs@[i]@.len() == 0 {
                                    assert(dir_contains(dirs@[i]@, dir@));
                                } else {
                                    lemma_dir_prefix_order(dir@, dirs@[i]@, p);
                                }
                            }
                        }
                    }
                    DirectoryMatch::Nothing
                }
            },
            Matcher::Union(a, b) => {
                let ra = a.matches_directory(dir);
                let rb = b.matches_directory(dir);
                if ra == DirectoryMatch::Everything || rb == DirectoryMatch::Everything {
                    proof {
                        assert forall|p: Seq<u8>| dir_contains(dir@, p) implies #[trigger]
                        spec_matches(*self, p) by {
                            assert(spec_matches(**a, p) || spec_matches(**b, p));
                        }
                    }
                    DirectoryMatch::Everything
                } else if ra == DirectoryMatch::Nothing && rb == DirectoryMatch::Nothing {
                    proof {
                        assert forall|p: Seq<u8>| dir_contains(dir@, p) implies !(
                        #[trigger] spec_matches(*self, p)) by {
                            assert(!spec_matches(**a, p) && !spec_matches(**b, p));
                        }
                    }
                    DirectoryMatch::Nothing
                } else {
                    DirectoryMatch::ShouldTraverse
                }
            },
            Matcher::Intersect(a, b) => {
                let ra = a.matches_directory(dir);
                let rb = b.matches_directory(dir);
                if ra == DirectoryMatch::Nothing || rb == DirectoryMatch::Nothing {
                    proof {
                        assert forall|p: Seq<u8>| dir_contains(dir@, p) implies !(
                        #[trigger] spec_matches(*self, p)) by {
                            assert(!spec_matches(**a, p) || !spec_matches(**b, p));
                        }
                    }
                    DirectoryMatch::Nothing
                } else if ra == DirectoryMatch::Everything && rb == DirectoryMatch::Everything {
                    proof {
                        assert forall|p: Seq<u8>| dir_contains(dir@, p) implies #[trigger]
                        spec_matches(*self, p) by {
                            assert(spec_matches(**a, p) && spec_matches(**b, p));
                        }
                    }
                    DirectoryMatch::Everything
                } else {
                    DirectoryMatch::ShouldTraverse
                }
            },
            Matcher::Difference(a, b) => {
                let ra = a.matches_directory(dir);
                let rb = b.matches_directory(dir);
                if ra == DirectoryMatch::Nothing || rb == DirectoryMatch::Everything {
                    proof {
                        assert forall|p: Seq<u8>| dir_contains(dir@, p) implies !(
                        #[trigger] spec_matches(*self, p)) by {
                            assert(!spec_matches(**a, p) || spec_matches(**b, p));
                        }
                    }
                    DirectoryMatch::Nothing
                } else if ra == DirectoryMatch::Everything && rb == DirectoryMatch::Nothing {
                    proof {
                        assert forall|p: Seq<u8>| dir_contains(dir@, p) implies #[trigger]
                        spec_matches(*self, p) by {
                            assert(spec_matches(**a, p) && !spec_matches(**b, p));
                        }
                    }
                    DirectoryMatch::Everything
                } else {
                    DirectoryMatch::ShouldTraverse
                }
            },
        }
    }
}

/// One of the listed paths lies strictly below `dir`.
fn exists_path_below(v: &Vec<RepoPathBuf>, dir: &RepoPathBuf) -> (r: bool)
    ensures
        !r ==> forall|j: int| 0 <= j < v@.len() ==> !dir_contains(dir@, (#[trigger] v@[j])@),
{
    let n = v.len();
    let mut i: usize = 0;
    while i < n
        invariant
            n == v@.len(),
            i <= n,
            forall|j: int| 0 <= j < i ==> !dir_contains(dir@, (#[trigger] v@[j])@),
        decreases n - i,
    {
        if v[i].starts_with_dir(dir) {
            return true;
        }
        i += 1;
    }
    false
}

/// One of the listed directories equals `dir` or contains it.
fn covered_by_some_dir(dirs: &Vec<RepoPathBuf>, dir: &RepoPathBuf) -> (r: bool)
    ensures
        r == exists|i: int|
            0 <= i < dirs@.len() && ((#[trigger] dirs@[i])@ == dir@ || dir_contains(
                dirs@[i]@,
                dir@,
            )),
{
    let n = dirs.len();
    let mut i: usize = 0;
    while i < n
        invariant
            n == dirs@.len(),
            i <= n,
            forall|j: int|
                0 <= j < i ==> !((#[trigger] dirs@[j])@ == dir@ || dir_contains(dirs@[j]@, dir@)),
        decreases n - i,
    {
        if dirs[i].path_eq(dir) || dir.starts_with_dir(&dirs[i]) {
            return true;
        }
        i += 1;
    }
    false
}

/// One of the listed directories lies strictly below `dir`.
fn exists_dir_related(dirs: &Vec<RepoPathBuf>, dir: &RepoPathBuf) -> (r: bool)
    ensures
        !r ==> forall|j: int| 0 <= j < dirs@.len() ==> !dir_contains(dir@, (#[trigger] dirs@[j])@),
{
    let n = dirs.len();
    let mut i: usize = 0;
    while i < n
        invariant
            n == dirs@.len(),
            i <= n,
            forall|j: int| 0 <= j < i ==> !dir_contains(dir@, (#[trigger] dirs@[j])@),
        decreases n - i,
    {
        if dirs[i].starts_with_dir(dir) {
            return true;
        }
        i += 1;
    }
    false
}

/// A copy of a list of paths, each with the same text.
pub fn dup_paths(v: &Vec<RepoPathBuf>) -> (r: Vec<RepoPathBuf>)
    ensures
        r@.len() == v@.len(),
        forall|i: int| 0 <= i < v@.len() ==> (#[trigger] r@[i])@ == v@[i]@,
{
    let n = v.len();
    let mut out: Vec<RepoPathBuf> = Vec::new();
    let mut i: usize = 0;
    while i < n
        invariant
            n == v@.len(),
            i <= n,
            out@.len() == i,
            forall|j: int| 0 <= j < i ==> (#[trigger] out@[j])@ == v@[j]@,
        decreases n - i,
    {
        out.push(v[i].dup());
        i += 1;
    }
    out
}

impl Matcher {
    /// A copy of the matcher that matches exactly the same paths.
    pub fn dup(&self) -> (r: Matcher)
        ensures
            forall|p: Seq<u8>| #[trigger] spec_matches(r, p) == spec_matches(*self, p),
        decreases *self,
    {
        match self {
            Matcher::Always => Matcher::Always,
            Matcher::Never => Matcher::Never,
            Matcher::Exact(set) => {
                let v = dup_paths(set);
                proof {
                    assert(path_views(v@) =~= path_views(set@));
                }
                Matcher::Exact(v)
            },
            Matcher::DirPrefix(dirs) => {
                let v = dup_paths(dirs);
                let ghost gv = v@;
                let r = Matcher::DirPrefix(v);
                proof {
                    assert forall|p: Seq<u8>| #[trigger]
                    spec_matches(r, p) == spec_matches(*self, p) by {
                        assert(gv.len() == dirs@.len());
                        if some_dir_contains(gv, p) {
                            let i = choose|i: int|
                                0 <= i < gv.len() && dir_contains(#[trigger] gv[i]@, p);
                            assert(dir_contains(dirs@[i]@, p));
                            assert(some_dir_contains(dirs@, p));
                        }
                        if some_dir_contains(dirs@, p) {
                            let i = choose|i: int|
                                0 <= i < dirs@.len() && dir_contains(#[trigger] dirs@[i]@, p);
                            assert(dir_contains(gv[i]@, p));
                            assert(some_dir_contains(gv, p));
                        }
                    }
                }
                r
            },
            Matcher::Union(a, b) => {
                let da = a.dup();
                let db = b.dup();
                let ghost gda = da;
                let ghost gdb = db;
                let r = Matcher::Union(Box::new(da), Box::new(db));
                proof {
                    assert forall|p: Seq<u8>| #[trigger]
                    spec_matches(r, p) == spec_matches(*self, p) by {
                        assert(spec_matches(gda, p) == spec_matches(**a, p));
                        assert(spec_matches(gdb, p) == spec_matches(**b, p));
                    }
                }
                r
            },
            Matcher::Intersect(a, b) => {
                let da = a.dup();
                let db = b.dup();
                let ghost gda = da;
                let ghost gdb = db;
                let r = Matcher::Intersect(Box::new(da), Box::new(db));
                proof {
                    assert forall|p: Seq<u8>| #[trigger]
                    spec_matches(r, p) == spec_matches(*self, p) by {
                        assert(spec_matches(gda, p) == spec_matches(**a, p));
                        assert(spec_matches(gdb, p) == spec_matches(**b, p));
                    }
                }
                r
            },
            Matcher::Difference(a, b) => {
                let da = a.dup();
                let db = b.dup();
                let ghost gda = da;
                let ghost gdb = db;
                let r = Matcher::Difference(Box::new(da), Box::new(db));
                proof {
                    assert forall|p: Seq<u8>| #[trigger]
                    spec_matches(r, p) == spec_matches(*self, p) by {
                        assert(spec_matches(gda, p) == spec_matches(**a, p));
                        assert(spec_matches(gdb, p) == spec_matches(**b, p));
                    }
                }
                r
            },
        }
    }
}

/// The union of a whole list of matchers: a path matches when some element
/// matches it.
pub fn union_of(ms: Vec<Matcher>) -> (r: Matcher)
    ensures
        forall|p: Seq<u8>| #[trigger]
            spec_matches(r, p) == exists|i: int|
                0 <= i < ms@.len() && spec_matches(#[trigger] ms@[i], p),
{
    let ghost all = ms@;
    let mut rest = ms;
    let mut r = Matcher::Never;
    proof {
        assert(all.subrange(0, all.len() as int) =~= all);
    }
    while rest.len() > 0
        invariant
            rest@.len() <= all.len(),
            rest@ == all.subrange(0, rest@.len() as int),
            forall|p: Seq<u8>| #[trigger]
                spec_matches(r, p) == exists|i: int|
                    rest@.len() <= i < all.len() && spec_matches(#[trigger] all[i], p),
        decreases rest@.len(),
    {
        let ghost n = rest@.len() as int;
        let m = rest.pop().unwrap();
        proof {
            assert(m == all[n - 1]);
            assert(rest@ =~= all.subrange(0, n - 1));
        }
        let ghost prev = r;
        let ghost mm = m;
        r = Matcher::Union(Box::new(m), Box::new(r));
        proof {
            assert forall|p: Seq<u8>| #[trigger]
            spec_matches(r, p) == (exists|i: int|
                n - 1 <= i < all.len() && spec_matches(#[trigger] all[i], p)) by {
                assert(spec_matches(r, p) == (spec_matches(mm, p) || spec_matches(prev, p)));
                if spec_matches(mm, p) {
                    assert(spec_matches(all[n - 1], p));
                }
                if exists|i: int| n - 1 <= i < all.len() && spec_matches(#[trigger] all[i], p) {
                    let i = choose|i: int|
                        n - 1 <= i < all.len() && spec_matches(#[trigger] all[i], p);
                    if i == n - 1 {
                        assert(spec_matches(mm, p));
                    } else {
                        assert(n <= i < all.len() && spec_matches(all[i], p));
                    }
                }
            }
        }
    }
    r
}

/// Law: the union of any matcher with `Always` matches exactly the paths
/// `Always` matches, that is, every path.
pub proof fn lemma_union_always(a: Box<Matcher>, alw: Box<Matcher>)
    requires
        *alw == Matcher::Always,
    ensures
        forall|p: Seq<u8>| #[trigger]
            spec_matches(Matcher::Union(a, alw), p) == spec_matches(Matcher::Always, p),
{
    assert forall|p: Seq<u8>| #[trigger]
    spec_matches(Matcher::Union(a, alw), p) == spec_matches(Matcher::Always, p) by {
        assert(spec_matches(*alw, p));
    }
}

/// Law: the intersection of any matcher with `Always` matches exactly the
/// paths the matcher itself matches.
pub proof fn lemma_intersect_always(a: Box<Matcher>, alw: Box<Matcher>)
    requires
        *alw == Matcher::Always,
    ensures
        forall|p: Seq<u8>| #[trigger]
            spec_matches(Matcher::Intersect(a, alw), p) == spec_matches(*a, p),
{
    assert forall|p: Seq<u8>| #[trigger]
    spec_matches(Matcher::Intersect(a, alw), p) == spec_matches(*a, p) by {
        assert(spec_matches(*alw, p));
    }
}

/// Law: the difference of any matcher with itself matches no path.
pub proof fn lemma_difference_self(a: Box<Matcher>)
    ensures
        forall|p: Seq<u8>| !#[trigger] spec_matches(Matcher::Difference(a, a), p),
{
}

} // verus!
