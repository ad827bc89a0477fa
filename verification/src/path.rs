//! Repository-relative paths: the universal key across manifests, the flag
//! store, matchers, and status results.

use vstd::prelude::*;

verus! {

/// Byte value of the path separator `/`.
pub const SLASH: u8 = 47;

/// A structurally valid repository path: nonempty, no leading or trailing
/// separator, and no empty components.
pub open spec fn wf_path(s: Seq<u8>) -> bool {
    &&& s.len() > 0
    &&& s[0] != SLASH
    &&& s[s.len() - 1] != SLASH
    &&& forall|i: int| 0 <= i < s.len() - 1 ==> !(#[trigger] s[i] == SLASH && s[i + 1] == SLASH)
}

/// `p` lies strictly below the directory `dir`; the empty sequence stands for
/// the repository root, below which every path lies.
pub open spec fn dir_contains(dir: Seq<u8>, p: Seq<u8>) -> bool {
    if dir.len() == 0 {
        true
    } else {
        &&& dir.len() < p.len()
        &&& p.subrange(0, dir.len() as int) == dir
        &&& p[dir.len() as int] == SLASH
    }
}

/// The byte text of a path was not structurally valid.
#[derive(Debug, PartialEq, Eq)]
pub struct PathError;

/// A repository-relative, slash-separated path, held as its byte text.
#[derive(Debug, PartialEq, Eq)]
pub struct RepoPathBuf {
    bytes: Vec<u8>,
}

impl View for RepoPathBuf {
    type V = Seq<u8>;

    closed spec fn view(&self) -> Seq<u8> {
        self.bytes@
    }
}

impl RepoPathBuf {
    /// The path's byte text is structurally valid.
    pub open spec fn wf(&self) -> bool {
        wf_path(self@)
    }

    /// Validates the byte text of a path and takes ownership of it.
    pub fn from_bytes(bytes: Vec<u8>) -> (r: Result<RepoPathBuf, PathError>)
        ensures
            r matches Ok(p) ==> p@ == bytes@ && wf_path(bytes@),
            r is Err ==> !wf_path(bytes@),
    {
        let n = bytes.len();
        if n == 0 {
            return Err(PathError);
        }
        if bytes[0] == SLASH || bytes[n - 1] == SLASH {
            return Err(PathError);
        }
        let mut i: usize = 0;
        while i + 1 < n
            invariant
                n == bytes@.len(),
                i < n,
                forall|j: int| 0 <= j < i ==> !(#[trigger] bytes@[j] == SLASH && bytes@[j + 1] == SLASH),
            decreases n - i,
        {
            if bytes[i] == SLASH && bytes[i + 1] == SLASH {
                return Err(PathError);
            }
            i += 1;
        }
        Ok(RepoPathBuf { bytes })
    }

    /// The byte text of the path.
    pub fn as_bytes(&self) -> (r: &Vec<u8>)
        ensures
            r@ == self@,
    {
        &self.bytes
    }

    /// A copy of the path with the same byte text.
    pub fn dup(&self) -> (r: RepoPathBuf)
        ensures
            r@ == self@,
    {
        let n = self.bytes.len();
        let mut v: Vec<u8> = Vec::new();
        let mut i: usize = 0;
        while i < n
            invariant
                n == self.bytes@.len(),
                i <= n,
                v@ == self.bytes@.subrange(0, i as int),
            decreases n - i,
        {
            v.push(self.bytes[i]);
            proof {
                assert(v@ =~= self.bytes@.subrange(0, i + 1 as int));
            }
            i += 1;
        }
        proof {
            assert(v@ =~= self.bytes@);
        }
        RepoPathBuf { bytes: v }
    }

    /// The two paths have the same byte text.
    pub fn path_eq(&self, other: &RepoPathBuf) -> (r: bool)
        ensures
            r == (self@ == other@),
    {
        let n = self.bytes.len();
        if n != other.bytes.len() {
            return false;
        }
        let mut i: usize = 0;
        while i < n
            invariant
                n == self.bytes@.len(),
                n == other.bytes@.len(),
                i <= n,
                forall|j: int| 0 <= j < i ==> self.bytes@[j] == other.bytes@[j],
            decreases n - i,
        {
            if self.bytes[i] != other.bytes[i] {
                return false;
            }
            i += 1;
        }
        proof {
            assert(self@ =~= other@);
        }
        true
    }

    /// The path lies strictly below the directory `dir`.
    pub fn starts_with_dir(&self, dir: &RepoPathBuf) -> (r: bool)
        ensures
            r == dir_contains(dir@, self@),
    {
        let d = dir.bytes.len();
        if d == 0 {
            return true;
        }
        if d >= self.bytes.len() {
            return false;
        }
        if self.bytes[d] != SLASH {
            return false;
        }
        let mut i: usize = 0;
        while i < d
            invariant
                d == dir.bytes@.len(),
                d < self.bytes@.len(),
                i <= d,
                self.bytes@[d as int] == SLASH,
                forall|j: int| 0 <= j < i ==> self.bytes@[j] == dir.bytes@[j],
            decreases d - i,
        {
            if self.bytes[i] != dir.bytes[i] {
                proof {
                    assert(self@.subrange(0, d as int)[i as int] != dir@[i as int]);
                }
                return false;
            }
            i += 1;
        }
        proof {
            assert(self@.subrange(0, d as int) =~= dir@);
        }
        true
    }
}

} // verus!
