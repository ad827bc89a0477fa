//! Per-path flag records of the flag store: a bitset recording existence
//! relative to the parent snapshots and the in-progress next state, plus an
//! optional copy-source path.

use vstd::prelude::*;

use crate::path::RepoPathBuf;

verus! {

/// The path exists in the first parent snapshot.
pub const EXIST_P1: u16 = 1;

/// The path exists in the second parent snapshot.
pub const EXIST_P2: u16 = 2;

/// The path exists in the in-progress next state.
pub const EXIST_NEXT: u16 = 4;

/// The path was copied from another path.
pub const COPIED: u16 = 8;

/// Per-path record: a flag bitset and, when `COPIED` is set, the source the
/// path was copied from.
#[derive(Debug)]
pub struct FileState {
    /// The flag bitset.
    pub state: u16,
    /// The copy source, recorded when `COPIED` is set.
    pub copied: Option<RepoPathBuf>,
}

impl FileState {
    /// A record with the given bitset and no copy source.
    pub fn new(state: u16) -> (r: FileState)
        ensures
            r.state == state,
            r.copied is None,
    {
        FileState { state, copied: None }
    }

    /// A record flagged `COPIED`, with its source path.
    pub fn copied_from(state: u16, source: RepoPathBuf) -> (r: FileState)
        ensures
            r.state == state,
            r.copied matches Some(s) && s@ == source@,
    {
        FileState { state, copied: Some(source) }
    }

    /// A copy of the record with the same bitset and source.
    pub fn dup(&self) -> (r: FileState)
        ensures
            r.state == self.state,
            match self.copied {
                Some(s) => r.copied matches Some(t) && t@ == s@,
                None => r.copied is None,
            },
    {
        FileState {
            state: self.state,
            copied: match &self.copied {
                Some(s) => Some(s.dup()),
                None => None,
            },
        }
    }

    /// The bitset shares a flag with the mask.
    pub fn intersects(&self, mask: u16) -> (r: bool)
        ensures
            r == (self.state & mask != 0),
    {
        self.state & mask != 0
    }
}

/// Every flag of `a` is also set in `b`.
pub open spec fn bits_le(a: u16, b: u16) -> bool {
    a & b == a
}

/// The bitset satisfies the newly-added query: the path exists in the next
/// state and in neither parent snapshot.
pub open spec fn is_added_state(bits: u16) -> bool {
    bits & (EXIST_P1 | EXIST_P2) == 0 && bits & EXIST_NEXT != 0
}

/// A bitset clear of each parent flag and meeting the next flag satisfies
/// the newly-added query.
pub proof fn lemma_added_state_parts(b: u16)
    requires
        b & EXIST_P1 == 0,
        b & EXIST_P2 == 0,
        b & EXIST_NEXT != 0,
    ensures
        is_added_state(b),
{
    assert((b & 1u16 == 0 && b & 2u16 == 0) ==> b & (1u16 | 2u16) == 0) by (bit_vector);
}

/// Narrowing an and-aggregate keeps it below everything it was below.
pub proof fn lemma_bits_le_and(a: u16, b: u16, s: u16)
    requires
        bits_le(a, s),
    ensures
        bits_le(a & b, s),
{
    assert((a & s == a) ==> ((a & b) & s == a & b)) by (bit_vector);
}

/// Widening an or-aggregate keeps it above everything it was above.
pub proof fn lemma_bits_le_or(s: u16, o: u16, b: u16)
    requires
        bits_le(s, o),
    ensures
        bits_le(s, o | b),
{
    assert((s & o == s) ==> (s & (o | b) == s)) by (bit_vector);
}

/// A value is below what it is narrowed into, and above what is widened by it.
pub proof fn lemma_bits_le_self(a: u16, b: u16)
    ensures
        bits_le(a & b, b),
        bits_le(b, a | b),
{
    assert((a & b) & b == a & b) by (bit_vector);
    assert(b & (a | b) == b) by (bit_vector);
}

/// A record clear of a mask keeps the and-aggregate above it clear of it too.
pub proof fn lemma_agg_prune_and(a: u16, s: u16, m: u16)
    requires
        bits_le(a, s),
        s & m == 0,
    ensures
        a & m == 0,
{
    assert((a & s == a && s & m == 0) ==> a & m == 0) by (bit_vector);
}

/// A record meeting a mask makes the or-aggregate above it meet it too.
pub proof fn lemma_agg_prune_or(o: u16, s: u16, m: u16)
    requires
        bits_le(s, o),
        s & m != 0,
    ensures
        o & m != 0,
{
    assert((s & o == s && s & m != 0) ==> o & m != 0) by (bit_vector);
}

} // verus!
