//! The flag store: per-path flag records kept in a tree whose directory
//! nodes carry aggregated summaries, the bitwise-and and bitwise-or of every
//! record's bitset below. A traversal stops at a subtree once its aggregates
//! prove that no record below can satisfy the query; the aggregates are kept
//! consistent by every mutation, so pruning never drops a record.

use vstd::multiset::Multiset;
use vstd::prelude::*;

use crate::filestate::bits_le;
use crate::filestate::is_added_state;
use crate::filestate::lemma_agg_prune_and;
use crate::filestate::lemma_agg_prune_or;
use crate::filestate::lemma_bits_le_and;
use crate::filestate::lemma_bits_le_or;
use crate::filestate::lemma_bits_le_self;
use crate::filestate::FileState;
use crate::filestate::EXIST_NEXT;
use crate::filestate::EXIST_P1;
use crate::filestate::EXIST_P2;
use crate::manifest::HgId;
use crate::matcher::lemma_path_views_push;
use crate::matcher::path_views;
use crate::path::RepoPathBuf;
use crate::path::SLASH;

verus! {

broadcast use vstd::seq_lib::group_to_multiset_ensures;

/// One record of the store: a full repository path and its flags.
#[derive(Debug)]
pub struct FileEntry {
    /// The path the record is for.
    pub path: RepoPathBuf,
    /// The record's flags and copy source.
    pub state: FileState,
}

/// A child directory of a store node.
#[derive(Debug)]
pub struct DirEntry {
    /// The directory's own name, one path component.
    pub name: Vec<u8>,
    /// The subtree below the directory.
    pub node: TreeStateNode,
}

/// A node of the store tree: the records kept right at this level, the child
/// directories, and the aggregate summary of every record below.
#[derive(Debug)]
pub struct TreeStateNode {
    /// Records kept at this level.
    pub files: Vec<FileEntry>,
    /// Child directories.
    pub dirs: Vec<DirEntry>,
    /// Bitwise-and bound: below every record's bitset in the subtree.
    pub agg_and: u16,
    /// Bitwise-or bound: above every record's bitset in the subtree.
    pub agg_or: u16,
}

/// The ghost value of one record: path text, flag bits, copy source.
pub struct EntryV {
    /// The path's byte text.
    pub path: Seq<u8>,
    /// The flag bitset.
    pub bits: u16,
    /// The copy source's byte text, when one is recorded.
    pub copied: Option<Seq<u8>>,
}

/// The view of an optional copy source.
pub open spec fn copied_view(c: Option<RepoPathBuf>) -> Option<Seq<u8>> {
    match c {
        Some(p) => Some(p@),
        None => None,
    }
}

/// The ghost value of a record.
pub open spec fn entry_view(e: FileEntry) -> EntryV {
    EntryV { path: e.path@, bits: e.state.state, copied: copied_view(e.state.copied) }
}

/// The ghost values of the records kept right at a node, in order.
pub open spec fn file_views(files: Seq<FileEntry>) -> Seq<EntryV>
    decreases files.len(),
{
    if files.len() == 0 {
        Seq::empty()
    } else {
        seq![entry_view(files[0])] + file_views(files.drop_first())
    }
}

/// Every record below a node, in traversal order: this level's records first,
/// then each child directory's records in turn.
pub open spec fn entries_of(n: TreeStateNode) -> Seq<EntryV>
    decreases n, 1int, 0int,
{
    file_views(n.files@) + entries_of_dirs(n, n.dirs@.len() as int)
}

/// The records below the first `k` child directories of a node.
pub open spec fn entries_of_dirs(n: TreeStateNode, k: int) -> Seq<EntryV>
    decreases n, 0int, k,
{
    if k <= 0 || k > n.dirs@.len() {
        Seq::empty()
    } else {
        entries_of_dirs(n, k - 1) + entries_of(n.dirs@[k - 1].node)
    }
}

/// The node's aggregates bound every record below it.
pub open spec fn agg_bounds(n: TreeStateNode) -> bool {
    forall|i: int|
        0 <= i < entries_of(n).len() ==> bits_le(n.agg_and, (#[trigger] entries_of(n)[i]).bits)
            && bits_le(entries_of(n)[i].bits, n.agg_or)
}

/// Aggregates are consistent with the records below, at this node and every
/// node further down.
pub open spec fn node_wf(n: TreeStateNode) -> bool
    decreases n, 1int, 0int,
{
    agg_bounds(n) && dirs_wf(n, n.dirs@.len() as int)
}

/// The first `k` child directories are each well formed.
pub open spec fn dirs_wf(n: TreeStateNode, k: int) -> bool
    decreases n, 0int, k,
{
    k <= 0 || k > n.dirs@.len() || (dirs_wf(n, k - 1) && node_wf(n.dirs@[k - 1].node))
}

/// `dirs_wf` says exactly that each child in range is well formed.
proof fn lemma_dirs_wf_iff(n: TreeStateNode, k: int)
    requires
        k <= n.dirs@.len(),
    ensures
        dirs_wf(n, k) <==> forall|j: int| 0 <= j < k ==> node_wf((#[trigger] n.dirs@[j]).node),
    decreases k,
{
    if k > 0 {
        lemma_dirs_wf_iff(n, k - 1);
    }
}

/// The paths of records satisfying the newly-added query, in store order.
pub open spec fn added_views(entries: Seq<EntryV>) -> Seq<Seq<u8>>
    decreases entries.len(),
{
    if entries.len() == 0 {
        Seq::empty()
    } else if is_added_state(entries[0].bits) {
        seq![entries[0].path] + added_views(entries.drop_first())
    } else {
        added_views(entries.drop_first())
    }
}

/// The records whose bitset meets a mask, in store order.
pub open spec fn masked_views(entries: Seq<EntryV>, mask: u16) -> Seq<EntryV>
    decreases entries.len(),
{
    if entries.len() == 0 {
        Seq::empty()
    } else if entries[0].bits & mask != 0 {
        seq![entries[0]] + masked_views(entries.drop_first(), mask)
    } else {
        masked_views(entries.drop_first(), mask)
    }
}

/// The record of the first entry whose path reads `p`.
pub open spec fn ts_lookup(entries: Seq<EntryV>, p: Seq<u8>) -> Option<EntryV>
    decreases entries.len(),
{
    if entries.len() == 0 {
        None
    } else if entries[0].path == p {
        Some(entries[0])
    } else {
        ts_lookup(entries.drop_first(), p)
    }
}

/// A found record is one of the store's records, and it carries the
/// looked-up path.
pub proof fn lemma_ts_lookup_member(entries: Seq<EntryV>, p: Seq<u8>)
    requires
        ts_lookup(entries, p) is Some,
    ensures
        ts_lookup(entries, p)->Some_0.path == p,
        exists|i: int|
            0 <= i < entries.len() && #[trigger] entries[i] == ts_lookup(entries, p)->Some_0,
    decreases entries.len(),
{
    if entries[0].path == p {
        assert(entries[0] == ts_lookup(entries, p)->Some_0);
    } else {
        lemma_ts_lookup_member(entries.drop_first(), p);
        let i = choose|i: int|
            0 <= i < entries.drop_first().len() && #[trigger] entries.drop_first()[i] == ts_lookup(
                entries.drop_first(),
                p,
            )->Some_0;
        assert(entries[i + 1] == ts_lookup(entries, p)->Some_0);
    }
}

/// An added-flagged record's path stands among the added views.
pub proof fn lemma_added_views_contains(entries: Seq<EntryV>, i: int)
    requires
        0 <= i < entries.len(),
        is_added_state(entries[i].bits),
    ensures
        added_views(entries).contains(entries[i].path),
    decreases entries.len(),
{
    if i == 0 {
        assert(added_views(entries)[0] == entries[0].path);
    } else {
        lemma_added_views_contains(entries.drop_first(), i - 1);
        let rest = added_views(entries.drop_first());
        let j = choose|j: int| 0 <= j < rest.len() && rest[j] == entries.drop_first()[i - 1].path;
        if is_added_state(entries[0].bits) {
            assert(added_views(entries)[j + 1] == entries[i].path);
        } else {
            assert(added_views(entries)[j] == entries[i].path);
        }
    }
}

/// Record views split over concatenation.
proof fn lemma_file_views_add(a: Seq<FileEntry>, b: Seq<FileEntry>)
    ensures
        file_views(a + b) =~= file_views(a) + file_views(b),
    decreases a.len(),
{
    if a.len() == 0 {
        assert(a + b =~= b);
    } else {
        assert((a + b).drop_first() =~= a.drop_first() + b);
        lemma_file_views_add(a.drop_first(), b);
    }
}

/// One view per record.
pub proof fn lemma_file_views_len(a: Seq<FileEntry>)
    ensures
        file_views(a).len() == a.len(),
        forall|i: int| 0 <= i < a.len() ==> #[trigger] file_views(a)[i] == entry_view(a[i]),
    decreases a.len(),
{
    if a.len() > 0 {
        lemma_file_views_len(a.drop_first());
    }
}

/// The added-path query splits over concatenation.
proof fn lemma_added_views_add(a: Seq<EntryV>, b: Seq<EntryV>)
    ensures
        added_views(a + b) =~= added_views(a) + added_views(b),
    decreases a.len(),
{
    if a.len() == 0 {
        assert(a + b =~= b);
    } else {
        assert((a + b).drop_first() =~= a.drop_first() + b);
        lemma_added_views_add(a.drop_first(), b);
    }
}

/// The mask query splits over concatenation.
proof fn lemma_masked_views_add(a: Seq<EntryV>, b: Seq<EntryV>, mask: u16)
    ensures
        masked_views(a + b, mask) =~= masked_views(a, mask) + masked_views(b, mask),
    decreases a.len(),
{
    if a.len() == 0 {
        assert(a + b =~= b);
    } else {
        assert((a + b).drop_first() =~= a.drop_first() + b);
        lemma_masked_views_add(a.drop_first(), b, mask);
    }
}

/// The views of a single record.
proof fn lemma_file_views_one(e: FileEntry)
    ensures
        file_views(seq![e]) =~= seq![entry_view(e)],
{
    assert(seq![e].drop_first() =~= Seq::<FileEntry>::empty());
    assert(file_views(Seq::<FileEntry>::empty()) =~= Seq::<EntryV>::empty());
}

/// What the added query says of a single record.
proof fn lemma_added_views_one(v: EntryV)
    ensures
        added_views(seq![v]) =~= if is_added_state(v.bits) {
            seq![v.path]
        } else {
            Seq::<Seq<u8>>::empty()
        },
{
    assert(seq![v].drop_first() =~= Seq::<EntryV>::empty());
    assert(added_views(Seq::<EntryV>::empty()) =~= Seq::<Seq<u8>>::empty());
}

/// What the mask query says of a single record.
proof fn lemma_masked_views_one(v: EntryV, mask: u16)
    ensures
        masked_views(seq![v], mask) =~= if v.bits & mask != 0 {
            seq![v]
        } else {
            Seq::<EntryV>::empty()
        },
{
    assert(seq![v].drop_first() =~= Seq::<EntryV>::empty());
    assert(masked_views(Seq::<EntryV>::empty(), mask) =~= Seq::<EntryV>::empty());
}

/// What the lookup says of a single record.
proof fn lemma_ts_lookup_one(v: EntryV, p: Seq<u8>)
    ensures
        ts_lookup(seq![v], p) == if v.path == p {
            Some(v)
        } else {
            None::<EntryV>
        },
{
    assert(seq![v].drop_first() =~= Seq::<EntryV>::empty());
    assert(ts_lookup(Seq::<EntryV>::empty(), p) is None);
}

/// Lookup tries the first part, then the second.
proof fn lemma_ts_lookup_add(a: Seq<EntryV>, b: Seq<EntryV>, p: Seq<u8>)
    ensures
        ts_lookup(a + b, p) == if ts_lookup(a, p) is Some {
            ts_lookup(a, p)
        } else {
            ts_lookup(b, p)
        },
    decreases a.len(),
{
    if a.len() == 0 {
        assert(a + b =~= b);
    } else {
        assert((a + b).drop_first() =~= a.drop_first() + b);
        lemma_ts_lookup_add(a.drop_first(), b, p);
    }
}

/// A store with no record satisfying the added query yields no added path.
proof fn lemma_added_views_none(entries: Seq<EntryV>)
    requires
        forall|i: int| 0 <= i < entries.len() ==> !is_added_state((#[trigger] entries[i]).bits),
    ensures
        added_views(entries) =~= Seq::<Seq<u8>>::empty(),
    decreases entries.len(),
{
    if entries.len() > 0 {
        lemma_added_views_none(entries.drop_first());
    }
}

/// A store with no record meeting the mask yields no record for it.
proof fn lemma_masked_views_none(entries: Seq<EntryV>, mask: u16)
    requires
        forall|i: int| 0 <= i < entries.len() ==> (#[trigger] entries[i]).bits & mask == 0,
    ensures
        masked_views(entries, mask) =~= Seq::<EntryV>::empty(),
    decreases entries.len(),
{
    if entries.len() > 0 {
        lemma_masked_views_none(entries.drop_first(), mask);
    }
}

/// The subtree's aggregates leave room for a record that exists in the next
/// state and in neither parent; when false, the subtree needs no visit.
pub open spec fn may_hold_added(agg_and: u16, agg_or: u16) -> bool {
    agg_and & (EXIST_P1 | EXIST_P2) == 0 && agg_or & EXIST_NEXT != 0
}

/// Pruning soundness, one subtree: a subtree whose aggregates rule the added
/// query out holds no added path at all.
proof fn lemma_prune_added_empty(n: TreeStateNode)
    requires
        agg_bounds(n),
        !may_hold_added(n.agg_and, n.agg_or),
    ensures
        added_views(entries_of(n)) =~= Seq::<Seq<u8>>::empty(),
{
    let es = entries_of(n);
    assert forall|i: int| 0 <= i < es.len() implies !is_added_state((#[trigger] es[i]).bits) by {
        if is_added_state(es[i].bits) {
            lemma_agg_prune_and(n.agg_and, es[i].bits, EXIST_P1 | EXIST_P2);
            lemma_agg_prune_or(n.agg_or, es[i].bits, EXIST_NEXT);
        }
    }
    lemma_added_views_none(es);
}

/// Pruning soundness for the mask query: a subtree whose or-aggregate misses
/// the mask holds no record meeting it.
proof fn lemma_prune_masked_empty(n: TreeStateNode, mask: u16)
    requires
        agg_bounds(n),
        n.agg_or & mask == 0,
    ensures
        masked_views(entries_of(n), mask) =~= Seq::<EntryV>::empty(),
{
    let es = entries_of(n);
    assert forall|i: int| 0 <= i < es.len() implies (#[trigger] es[i]).bits & mask == 0 by {
        if es[i].bits & mask != 0 {
            lemma_agg_prune_or(n.agg_or, es[i].bits, mask);
        }
    }
    lemma_masked_views_none(es, mask);
}

/// Collects the paths of records satisfying the newly-added query, visiting a
/// subtree only while its aggregates leave the query possible. Pruned or not,
/// the result is exactly the added paths of the whole subtree.
fn collect_added(n: &TreeStateNode, prune: bool, out: &mut Vec<RepoPathBuf>)
    requires
        prune ==> node_wf(*n),
    ensures
        path_views(final (out)@) == path_views(old(out)@) + added_views(entries_of(*n)),
    decreases *n,
{
    if prune && !(n.agg_and & (EXIST_P1 | EXIST_P2) == 0 && n.agg_or & EXIST_NEXT != 0) {
        proof {
            lemma_prune_added_empty(*n);
            assert(path_views(out@) =~= path_views(old(out)@) + added_views(entries_of(*n)));
        }
        return ;
    }
    let ghost base = path_views(old(out)@);
    let nf = n.files.len();
    let mut i: usize = 0;
    proof {
        assert(n.files@.subrange(0, 0) =~= Seq::<FileEntry>::empty());
        assert(path_views(out@) =~= base + added_views(file_views(n.files@.subrange(0, 0))));
    }
    while i < nf
        invariant
            nf == n.files@.len(),
            i <= nf,
            prune ==> node_wf(*n),
            path_views(out@) == base + added_views(file_views(n.files@.subrange(0, i as int))),
        decreases nf - i,
    {
        let ghost pre = out@;
        let st = n.files[i].state.state;
        if st & (EXIST_P1 | EXIST_P2) == 0 && st & EXIST_NEXT != 0 {
            out.push(n.files[i].path.dup());
            proof {
                lemma_path_views_push(pre, out@.last());
            }
        }
        proof {
            assert(n.files@.subrange(0, i + 1) =~= n.files@.subrange(0, i as int) + seq![
                n.files@[i as int],
            ]);
            lemma_file_views_add(n.files@.subrange(0, i as int), seq![n.files@[i as int]]);
            lemma_file_views_one(n.files@[i as int]);
            lemma_added_views_add(
                file_views(n.files@.subrange(0, i as int)),
                seq![entry_view(n.files@[i as int])],
            );
            lemma_added_views_one(entry_view(n.files@[i as int]));
            assert(path_views(out@) =~= base + added_views(
                file_views(n.files@.subrange(0, i + 1)),
            ));
        }
        i += 1;
    }
    proof {
        assert(n.files@.subrange(0, nf as int) =~= n.files@);
    }
    let nd = n.dirs.len();
    let mut j: usize = 0;
    while j < nd
        invariant
            nd == n.dirs@.len(),
            prune ==> node_wf(*n),
            j <= nd,
            path_views(out@) == base + added_views(file_views(n.files@)) + added_views(
                entries_of_dirs(*n, j as int),
            ),
        decreases nd - j,
    {
        proof {
            if prune {
                lemma_dirs_wf_iff(*n, nd as int);
            }
        }
        collect_added(&n.dirs[j].node, prune, out);
        proof {
            lemma_added_views_add(entries_of_dirs(*n, j as int), entries_of(n.dirs@[j as int].node));
            assert(path_views(out@) =~= base + added_views(file_views(n.files@)) + added_views(
                entries_of_dirs(*n, j + 1),
            ));
        }
        j += 1;
    }
    proof {
        lemma_added_views_add(file_views(n.files@), entries_of_dirs(*n, nd as int));
        assert(path_views(out@) =~= path_views(old(out)@) + added_views(entries_of(*n)));
    }
}

/// Collects the records whose bitset meets the mask, pruning subtrees whose
/// or-aggregate misses it.
fn collect_masked(n: &TreeStateNode, mask: u16, out: &mut Vec<FileEntry>)
    requires
        node_wf(*n),
    ensures
        file_views(final (out)@) == file_views(old(out)@) + masked_views(entries_of(*n), mask),
    decreases *n,
{
    if n.agg_or & mask == 0 {
        proof {
            lemma_prune_masked_empty(*n, mask);
            assert(file_views(out@) =~= file_views(old(out)@) + masked_views(
                entries_of(*n),
                mask,
            ));
        }
        return ;
    }
    let ghost base = file_views(old(out)@);
    let nf = n.files.len();
    let mut i: usize = 0;
    proof {
        assert(n.files@.subrange(0, 0) =~= Seq::<FileEntry>::empty());
        assert(file_views(out@) =~= base + masked_views(
            file_views(n.files@.subrange(0, 0)),
            mask,
        ));
    }
    while i < nf
        invariant
            nf == n.files@.len(),
            i <= nf,
            node_wf(*n),
            file_views(out@) == base + masked_views(
                file_views(n.files@.subrange(0, i as int)),
                mask,
            ),
        decreases nf - i,
    {
        let ghost pre = out@;
        if n.files[i].state.state & mask != 0 {
            let e = FileEntry { path: n.files[i].path.dup(), state: n.files[i].state.dup() };
            proof {
                assert(entry_view(e) == entry_view(n.files@[i as int]));
            }
            out.push(e);
            proof {
                assert(pre.push(out@.last()) =~= out@);
                lemma_file_views_add(pre, seq![out@.last()]);
                lemma_file_views_one(out@.last());
                assert(pre + seq![out@.last()] =~= out@);
            }
        }
        proof {
            assert(n.files@.subrange(0, i + 1) =~= n.files@.subrange(0, i as int) + seq![
                n.files@[i as int],
            ]);
            lemma_file_views_add(n.files@.subrange(0, i as int), seq![n.files@[i as int]]);
            lemma_file_views_one(n.files@[i as int]);
            lemma_masked_views_add(
                file_views(n.files@.subrange(0, i as int)),
                seq![entry_view(n.files@[i as int])],
                mask,
            );
            lemma_masked_views_one(entry_view(n.files@[i as int]), mask);
            assert(file_views(out@) =~= base + masked_views(
                file_views(n.files@.subrange(0, i + 1)),
                mask,
            ));
        }
        i += 1;
    }
    proof {
        assert(n.files@.subrange(0, nf as int) =~= n.files@);
    }
    let nd = n.dirs.len();
    let mut j: usize = 0;
    while j < nd
        invariant
            nd == n.dirs@.len(),
            node_wf(*n),
            j <= nd,
            file_views(out@) == base + masked_views(file_views(n.files@), mask) + masked_views(
                entries_of_dirs(*n, j as int),
                mask,
            ),
        decreases nd - j,
    {
        proof {
            lemma_dirs_wf_iff(*n, nd as int);
        }
        collect_masked(&n.dirs[j].node, mask, out);
        proof {
            lemma_masked_views_add(
                entries_of_dirs(*n, j as int),
                entries_of(n.dirs@[j as int].node),
                mask,
            );
            assert(file_views(out@) =~= base + masked_views(file_views(n.files@), mask)
                + masked_views(entries_of_dirs(*n, j + 1), mask));
        }
        j += 1;
    }
    proof {
        lemma_masked_views_add(file_views(n.files@), entries_of_dirs(*n, nd as int), mask);
        assert(file_views(out@) =~= file_views(old(out)@) + masked_views(entries_of(*n), mask));
    }
}

/// The record for a path, scanning this level's records first and each child
/// directory in turn, as `ts_lookup` reads the entries.
fn get_in_node<'a>(n: &'a TreeStateNode, p: &RepoPathBuf) -> (r: Option<&'a FileState>)
    ensures
        match r {
            Some(st) => ts_lookup(entries_of(*n), p@) == Some(
                EntryV { path: p@, bits: st.state, copied: copied_view(st.copied) },
            ),
            None => ts_lookup(entries_of(*n), p@) is None,
        },
    decreases *n,
{
    let nf = n.files.len();
    let mut i: usize = 0;
    proof {
        assert(n.files@.subrange(0, 0) =~= Seq::<FileEntry>::empty());
    }
    while i < nf
        invariant
            nf == n.files@.len(),
            i <= nf,
            ts_lookup(file_views(n.files@.subrange(0, i as int)), p@) is None,
        decreases nf - i,
    {
        proof {
            assert(n.files@.subrange(0, i + 1) =~= n.files@.subrange(0, i as int) + seq![
                n.files@[i as int],
            ]);
            lemma_file_views_add(n.files@.subrange(0, i as int), seq![n.files@[i as int]]);
            lemma_file_views_one(n.files@[i as int]);
            lemma_ts_lookup_add(
                file_views(n.files@.subrange(0, i as int)),
                seq![entry_view(n.files@[i as int])],
                p@,
            );
            lemma_ts_lookup_one(entry_view(n.files@[i as int]), p@);
        }
        if n.files[i].path.path_eq(p) {
            proof {
                lemma_file_views_len(n.files@);
                lemma_file_views_len(n.files@.subrange(0, i as int));
                assert(file_views(n.files@).subrange(0, i as int) =~= file_views(
                    n.files@.subrange(0, i as int),
                ));
                assert(file_views(n.files@)[i as int] == entry_view(n.files@[i as int]));
                lemma_ts_lookup_prefix(file_views(n.files@), i as int, p@);
                lemma_ts_lookup_add(
                    file_views(n.files@),
                    entries_of_dirs(*n, n.dirs@.len() as int),
                    p@,
                );
            }
            return Some(&n.files[i].state);
        }
        i += 1;
    }
    proof {
        assert(n.files@.subrange(0, nf as int) =~= n.files@);
    }
    let nd = n.dirs.len();
    let mut j: usize = 0;
    while j < nd
        invariant
            nd == n.dirs@.len(),
            j <= nd,
            ts_lookup(file_views(n.files@), p@) is None,
            ts_lookup(entries_of_dirs(*n, j as int), p@) is None,
        decreases nd - j,
    {
        proof {
            lemma_ts_lookup_add(
                entries_of_dirs(*n, j as int),
                entries_of(n.dirs@[j as int].node),
                p@,
            );
        }
        let r = get_in_node(&n.dirs[j].node, p);
        if r.is_some() {
            proof {
                lemma_ts_lookup_dirs_suffix(*n, j as int + 1, nd as int, p@);
                lemma_ts_lookup_add(
                    file_views(n.files@),
                    entries_of_dirs(*n, nd as int),
                    p@,
                );
            }
            return r;
        }
        j += 1;
    }
    proof {
        lemma_ts_lookup_add(file_views(n.files@), entries_of_dirs(*n, nd as int), p@);
    }
    None
}

/// When a prefix of the child directories already finds the path, the rest do
/// not change the answer.
proof fn lemma_ts_lookup_dirs_suffix(n: TreeStateNode, j: int, k: int, p: Seq<u8>)
    requires
        0 <= j <= k <= n.dirs@.len(),
        ts_lookup(entries_of_dirs(n, j), p) is Some,
    ensures
        ts_lookup(entries_of_dirs(n, k), p) == ts_lookup(entries_of_dirs(n, j), p),
    decreases k - j,
{
    if j < k {
        lemma_ts_lookup_add(entries_of_dirs(n, k - 1), entries_of(n.dirs@[k - 1].node), p);
        lemma_ts_lookup_dirs_suffix(n, j, k - 1, p);
    }
}

/// The records below the first `k` child directories depend only on those
/// directories.
proof fn lemma_entries_dirs_congruent(n1: TreeStateNode, n2: TreeStateNode, k: int)
    requires
        k <= n1.dirs@.len(),
        k <= n2.dirs@.len(),
        forall|i: int| 0 <= i < k ==> n1.dirs@[i] == n2.dirs@[i],
    ensures
        entries_of_dirs(n1, k) == entries_of_dirs(n2, k),
    decreases k,
{
    if k > 0 {
        lemma_entries_dirs_congruent(n1, n2, k - 1);
    }
}

/// A sequence with no element has the empty multiset.
proof fn lemma_empty_seq_multiset()
    ensures
        Seq::<EntryV>::empty().to_multiset() =~= Multiset::<EntryV>::empty(),
{
    broadcast use vstd::multiset::group_multiset_axioms;
    broadcast use vstd::multiset::axiom_count_le_len;

    assert(Seq::<EntryV>::empty().to_multiset().len() == 0);
}

/// Replacing one child directory's subtree by the same records plus one more
/// adds exactly that record below the node.
proof fn lemma_entries_dirs_update(n1: TreeStateNode, n2: TreeStateNode, k: int, j: int, ev: EntryV)
    requires
        n1.dirs@.len() == n2.dirs@.len(),
        0 <= j < n1.dirs@.len(),
        forall|i: int| 0 <= i < n1.dirs@.len() && i != j ==> n1.dirs@[i] == n2.dirs@[i],
        entries_of(n2.dirs@[j].node).to_multiset() == entries_of(
            n1.dirs@[j].node,
        ).to_multiset().insert(ev),
        0 <= k <= n1.dirs@.len(),
    ensures
        k <= j ==> entries_of_dirs(n2, k) == entries_of_dirs(n1, k),
        k > j ==> entries_of_dirs(n2, k).to_multiset() == entries_of_dirs(
            n1,
            k,
        ).to_multiset().insert(ev),
    decreases k,
{
    broadcast use vstd::multiset::group_multiset_axioms;

    if k > 0 {
        lemma_entries_dirs_update(n1, n2, k - 1, j, ev);
        let a1 = entries_of_dirs(n1, k - 1);
        let a2 = entries_of_dirs(n2, k - 1);
        let c1 = entries_of(n1.dirs@[k - 1].node);
        let c2 = entries_of(n2.dirs@[k - 1].node);
        vstd::seq_lib::lemma_multiset_commutative(a1, c1);
        vstd::seq_lib::lemma_multiset_commutative(a2, c2);
        if k - 1 == j {
            assert(a2 == a1);
            assert(a1.to_multiset().add(c1.to_multiset().insert(ev)) =~= a1.to_multiset().add(
                c1.to_multiset(),
            ).insert(ev));
        } else if k - 1 > j {
            assert(c2 == c1);
            assert(a1.to_multiset().insert(ev).add(c1.to_multiset()) =~= a1.to_multiset().add(
                c1.to_multiset(),
            ).insert(ev));
        }
    }
}

/// After narrowing the and-aggregate and widening the or-aggregate by the new
/// record's bits, the aggregates bound the grown record set again.
proof fn lemma_agg_bounds_after(n1: TreeStateNode, n2: TreeStateNode, ev: EntryV, bits: u16)
    requires
        agg_bounds(n1),
        entries_of(n2).to_multiset() == entries_of(n1).to_multiset().insert(ev),
        ev.bits == bits,
        n2.agg_and == n1.agg_and & bits,
        n2.agg_or == n1.agg_or | bits,
    ensures
        agg_bounds(n2),
{
    broadcast use vstd::multiset::group_multiset_axioms;

    assert forall|i: int| 0 <= i < entries_of(n2).len() implies bits_le(
        n2.agg_and,
        (#[trigger] entries_of(n2)[i]).bits,
    ) && bits_le(entries_of(n2)[i].bits, n2.agg_or) by {
        let e = entries_of(n2)[i];
        assert(entries_of(n2).contains(e));
        assert(entries_of(n2).to_multiset().count(e) > 0);
        if e == ev {
            lemma_bits_le_self(n1.agg_and, bits);
            lemma_bits_le_self(n1.agg_or, bits);
            assert(bits_le(n1.agg_and & bits, bits));
            assert(bits_le(bits, n1.agg_or | bits));
        } else {
            assert(entries_of(n1).to_multiset().count(e) > 0);
            assert(entries_of(n1).contains(e));
            let j = choose|j: int| 0 <= j < entries_of(n1).len() && entries_of(n1)[j] == e;
            assert(bits_le(n1.agg_and, e.bits) && bits_le(e.bits, n1.agg_or));
            lemma_bits_le_and(n1.agg_and, bits, e.bits);
            lemma_bits_le_or(e.bits, n1.agg_or, bits);
        }
    }
}

/// A node with no record and no child, bounded by the full and the empty
/// bitset: the aggregates of an empty subtree.
fn empty_node() -> (r: TreeStateNode)
    ensures
        node_wf(r),
        entries_of(r) == Seq::<EntryV>::empty(),
        r.dirs@.len() == 0,
{
    let r = TreeStateNode { files: Vec::new(), dirs: Vec::new(), agg_and: 0xffff, agg_or: 0 };
    proof {
        assert(entries_of_dirs(r, 0) =~= Seq::<EntryV>::empty());
        assert(file_views(r.files@) =~= Seq::<EntryV>::empty());
        assert(entries_of(r) =~= Seq::<EntryV>::empty());
        lemma_dirs_wf_iff(r, 0);
    }
    r
}

/// The position of the first separator at or after `pos`.
fn find_slash(path: &RepoPathBuf, pos: usize) -> (r: Option<usize>)
    requires
        pos <= path@.len(),
    ensures
        match r {
            Some(i) => pos <= i < path@.len() && path@[i as int] == SLASH,
            None => forall|j: int| pos <= j < path@.len() ==> path@[j] != SLASH,
        },
{
    let bytes = path.as_bytes();
    let n = bytes.len();
    let mut i: usize = pos;
    while i < n
        invariant
            n == path@.len(),
            bytes@ == path@,
            pos <= i <= n,
            forall|j: int| pos <= j < i ==> path@[j] != SLASH,
        decreases n - i,
    {
        if bytes[i] == SLASH {
            return Some(i);
        }
        i += 1;
    }
    None
}

/// The directory's name reads the same as the path between `pos` and `end`.
fn dir_name_matches(name: &Vec<u8>, path: &RepoPathBuf, pos: usize, end: usize) -> (r: bool)
    requires
        pos <= end <= path@.len(),
    ensures
        r == (name@ == path@.subrange(pos as int, end as int)),
{
    let bytes = path.as_bytes();
    if name.len() != end - pos {
        return false;
    }
    let mut i: usize = 0;
    while i < end - pos
        invariant
            bytes@ == path@,
            pos <= end <= path@.len(),
            name@.len() == end - pos,
            i <= end - pos,
            forall|j: int| 0 <= j < i ==> name@[j] == path@[pos + j],
        decreases end - pos - i,
    {
        if name[i] != bytes[pos + i] {
            proof {
                assert(path@.subrange(pos as int, end as int)[i as int] == path@[pos + i]);
            }
            return false;
        }
        i += 1;
    }
    proof {
        assert(name@ =~= path@.subrange(pos as int, end as int));
    }
    true
}

/// The bytes of the path between `pos` and `end`: one component.
fn component_of(path: &RepoPathBuf, pos: usize, end: usize) -> (r: Vec<u8>)
    requires
        pos <= end <= path@.len(),
    ensures
        r@ == path@.subrange(pos as int, end as int),
{
    let bytes = path.as_bytes();
    let mut v: Vec<u8> = Vec::new();
    let mut i: usize = pos;
    while i < end
        invariant
            bytes@ == path@,
            pos <= i <= end <= path@.len(),
            v@ == path@.subrange(pos as int, i as int),
        decreases end - i,
    {
        v.push(bytes[i]);
        proof {
            assert(v@ =~= path@.subrange(pos as int, i + 1));
        }
        i += 1;
    }
    v
}

/// The index of a child directory named like the path between `pos` and
/// `end`, when the node has one.
fn find_dir(dirs: &Vec<DirEntry>, path: &RepoPathBuf, pos: usize, end: usize) -> (r: Option<usize>)
    requires
        pos <= end <= path@.len(),
    ensures
        r matches Some(k) ==> k < dirs@.len(),
{
    let n = dirs.len();
    let mut i: usize = 0;
    while i < n
        invariant
            pos <= end <= path@.len(),
            n == dirs@.len(),
            i <= n,
        decreases n - i,
    {
        if dir_name_matches(&dirs[i].name, path, pos, end) {
            return Some(i);
        }
        i += 1;
    }
    None
}

/// Records a fresh entry below the node, descending along the path's
/// components and updating every aggregate on the way down, so that the
/// bounds stay consistent with the grown record set.
fn node_insert(n: TreeStateNode, path: &RepoPathBuf, pos: usize, state: FileState) -> (r:
    TreeStateNode)
    requires
        node_wf(n),
        pos <= path@.len(),
    ensures
        node_wf(r),
        entries_of(r).to_multiset() == entries_of(n).to_multiset().insert(
            EntryV { path: path@, bits: state.state, copied: copied_view(state.copied) },
        ),
    decreases path@.len() - pos,
{
    broadcast use vstd::multiset::group_multiset_axioms;

    let ghost n0 = n;
    let ghost ev = EntryV { path: path@, bits: state.state, copied: copied_view(state.copied) };
    let mut n = n;
    let bits = state.state;
    n.agg_and = n.agg_and & bits;
    n.agg_or = n.agg_or | bits;
    proof {
        lemma_entries_dirs_congruent(n, n0, n0.dirs@.len() as int);
        assert(entries_of(n) == entries_of(n0));
    }
    let plen = path.as_bytes().len();
    let slash = find_slash(path, pos);
    match slash {
        None => {
            let e = FileEntry { path: path.dup(), state };
            proof {
                assert(entry_view(e) == ev);
            }
            let ghost before = n;
            n.files.push(e);
            proof {
                lemma_entries_dirs_congruent(n, before, before.dirs@.len() as int);
                let a = file_views(n0.files@);
                let d = entries_of_dirs(before, before.dirs@.len() as int);
                assert(n.files@ =~= n0.files@ + seq![e]);
                lemma_file_views_add(n0.files@, seq![e]);
                lemma_file_views_one(e);
                assert(file_views(n.files@) =~= a + seq![ev]);
                assert(a + seq![ev] =~= a.push(ev));
                assert(entries_of(n) =~= a.push(ev) + d);
                vstd::seq_lib::lemma_multiset_commutative(a.push(ev), d);
                vstd::seq_lib::lemma_multiset_commutative(a, d);
                assert(a.push(ev).to_multiset() =~= a.to_multiset().insert(ev));
                assert(entries_of(n).to_multiset() =~= entries_of(n0).to_multiset().insert(ev));
                lemma_agg_bounds_after(n0, n, ev, bits);
                lemma_dirs_wf_iff(n0, n0.dirs@.len() as int);
                lemma_dirs_wf_iff(n, n.dirs@.len() as int);
            }
            n
        },
        Some(idx) => {
            let found = find_dir(&n.dirs, path, pos, idx);
            match found {
                Some(k) => {
                    let ghost before = n;
                    let d = n.dirs.remove(k);
                    let DirEntry { name, node } = d;
                    proof {
                        lemma_dirs_wf_iff(n0, n0.dirs@.len() as int);
                        assert(node == n0.dirs@[k as int].node);
                    }
                    let child = node_insert(node, path, idx + 1, state);
                    n.dirs.insert(k, DirEntry { name, node: child });
                    proof {
                        assert(n.dirs@ =~= before.dirs@.update(k as int, n.dirs@[k as int]));
                        assert(forall|i: int|
                            0 <= i < n0.dirs@.len() && i != k ==> n0.dirs@[i] == n.dirs@[i]);
                        lemma_entries_dirs_update(
                            n0,
                            n,
                            n0.dirs@.len() as int,
                            k as int,
                            ev,
                        );
                        let a = file_views(n0.files@);
                        let d1 = entries_of_dirs(n0, n0.dirs@.len() as int);
                        let d2 = entries_of_dirs(n, n.dirs@.len() as int);
                        assert(file_views(n.files@) == a);
                        vstd::seq_lib::lemma_multiset_commutative(a, d1);
                        vstd::seq_lib::lemma_multiset_commutative(a, d2);
                        assert(a.to_multiset().add(d1.to_multiset().insert(ev))
                            =~= a.to_multiset().add(d1.to_multiset()).insert(ev));
                        assert(entries_of(n).to_multiset() =~= entries_of(
                            n0,
                        ).to_multiset().insert(ev));
                        lemma_agg_bounds_after(n0, n, ev, bits);
                        lemma_dirs_wf_iff(n, n.dirs@.len() as int);
                    }
                    n
                },
                None => {
                    let ghost before = n;
                    let child = node_insert(empty_node(), path, idx + 1, state);
                    n.dirs.push(DirEntry { name: component_of(path, pos, idx), node: child });
                    proof {
                        let len0 = n0.dirs@.len() as int;
                        assert(forall|i: int| 0 <= i < len0 ==> n0.dirs@[i] == n.dirs@[i]);
                        lemma_entries_dirs_congruent(n, n0, len0);
                        assert(entries_of_dirs(n, len0 + 1) == entries_of_dirs(n, len0)
                            + entries_of(child));
                        lemma_empty_seq_multiset();
                        let a = file_views(n0.files@);
                        let d1 = entries_of_dirs(n0, len0);
                        let c = entries_of(child);
                        assert(c.to_multiset() =~= Multiset::<EntryV>::empty().insert(ev));
                        assert(entries_of(n) =~= a + (d1 + c));
                        vstd::seq_lib::lemma_multiset_commutative(a, d1 + c);
                        vstd::seq_lib::lemma_multiset_commutative(d1, c);
                        vstd::seq_lib::lemma_multiset_commutative(a, d1);
                        assert(a.to_multiset().add(
                            d1.to_multiset().add(Multiset::<EntryV>::empty().insert(ev)),
                        ) =~= a.to_multiset().add(d1.to_multiset()).insert(ev));
                        assert(entries_of(n).to_multiset() =~= entries_of(
                            n0,
                        ).to_multiset().insert(ev));
                        lemma_agg_bounds_after(n0, n, ev, bits);
                        lemma_dirs_wf_iff(n0, len0);
                        lemma_dirs_wf_iff(n, len0 + 1);
                    }
                    n
                },
            }
        },
    }
}

/// When the records before position `i` miss the path and the record at `i`
/// carries it, the lookup answers with that record.
proof fn lemma_ts_lookup_prefix(views: Seq<EntryV>, i: int, p: Seq<u8>)
    requires
        0 <= i < views.len(),
        ts_lookup(views.subrange(0, i), p) is None,
        views[i].path == p,
    ensures
        ts_lookup(views, p) == Some(views[i]),
{
    assert(views =~= views.subrange(0, i) + seq![views[i]] + views.subrange(
        i + 1,
        views.len() as int,
    ));
    lemma_ts_lookup_add(
        views.subrange(0, i) + seq![views[i]],
        views.subrange(i + 1, views.len() as int),
        p,
    );
    lemma_ts_lookup_add(views.subrange(0, i), seq![views[i]], p);
}


/// The record count below a prefix of the child directories never exceeds the
/// count below a longer prefix.
proof fn lemma_dirs_len_mono(n: TreeStateNode, j: int, k: int)
    requires
        0 <= j <= k <= n.dirs@.len(),
    ensures
        entries_of_dirs(n, j).len() <= entries_of_dirs(n, k).len(),
    decreases k,
{
    if j < k {
        lemma_dirs_len_mono(n, j, k - 1);
    }
}

/// How many records a subtree holds.
fn count_node(n: &TreeStateNode) -> (r: usize)
    requires
        entries_of(*n).len() <= usize::MAX,
    ensures
        r == entries_of(*n).len(),
    decreases *n,
{
    proof {
        lemma_file_views_len(n.files@);
        assert(entries_of_dirs(*n, 0) =~= Seq::<EntryV>::empty());
    }
    let mut c = n.files.len();
    let nd = n.dirs.len();
    let mut j: usize = 0;
    while j < nd
        invariant
            nd == n.dirs@.len(),
            j <= nd,
            entries_of(*n).len() <= usize::MAX,
            entries_of(*n).len() == file_views(n.files@).len() + entries_of_dirs(
                *n,
                nd as int,
            ).len(),
            c == file_views(n.files@).len() + entries_of_dirs(*n, j as int).len(),
        decreases nd - j,
    {
        proof {
            assert(entries_of_dirs(*n, j + 1) == entries_of_dirs(*n, j as int) + entries_of(
                n.dirs@[j as int].node,
            ));
            lemma_dirs_len_mono(*n, j as int + 1, nd as int);
        }
        let cc = count_node(&n.dirs[j].node);
        c += cc;
        j += 1;
    }
    c
}

/// The flag store: persistent per-path bookkeeping of existence relative to
/// the parent snapshots and the in-progress next state, with the active
/// parent identifiers. A status computation owns it exclusively for the
/// length of its traversals.
#[derive(Debug)]
pub struct TreeState {
    root: TreeStateNode,
    parents: Vec<HgId>,
}

impl TreeState {
    /// The records of the store, in traversal order.
    pub closed spec fn entries(&self) -> Seq<EntryV> {
        entries_of(self.root)
    }

    /// The aggregates are consistent with the records through the whole tree.
    pub closed spec fn wf(&self) -> bool {
        node_wf(self.root)
    }

    /// The active parent snapshot identifiers.
    pub closed spec fn spec_parents(&self) -> Seq<HgId> {
        self.parents@
    }

    /// An empty store based on the given parent snapshots.
    pub fn new(parents: Vec<HgId>) -> (r: TreeState)
        ensures
            r.wf(),
            r.entries() == Seq::<EntryV>::empty(),
            r.spec_parents() == parents@,
    {
        TreeState { root: empty_node(), parents }
    }

    /// The active parent snapshots, in order; empty when the working copy has
    /// no parent.
    pub fn parents(&self) -> (r: &Vec<HgId>)
        ensures
            r@ == self.spec_parents(),
    {
        &self.parents
    }

    /// How many records the store holds.
    pub fn len(&self) -> (r: usize)
        requires
            self.entries().len() <= usize::MAX,
        ensures
            r == self.entries().len(),
    {
        count_node(&self.root)
    }

    /// Records a path not recorded yet, updating every aggregate on the way
    /// down so that pruned traversals stay exact.
    pub fn insert(&mut self, path: &RepoPathBuf, state: FileState)
        requires
            old(self).wf(),
            ts_lookup(old(self).entries(), path@) is None,
        ensures
            final (self).wf(),
            final (self).entries().to_multiset() == old(self).entries().to_multiset().insert(
                EntryV { path: path@, bits: state.state, copied: copied_view(state.copied) },
            ),
            final (self).spec_parents() == old(self).spec_parents(),
    {
        let mut root = empty_node();
        core::mem::swap(&mut root, &mut self.root);
        self.root = node_insert(root, path, 0, state);
    }

    /// The newly-added paths, by aggregate-pruned traversal: exactly the
    /// paths of records that exist in the next state and in neither parent,
    /// however much of the tree the pruning skips.
    pub fn visit_added(&self) -> (r: Vec<RepoPathBuf>)
        requires
            self.wf(),
        ensures
            path_views(r@) == added_views(self.entries()),
    {
        let mut out: Vec<RepoPathBuf> = Vec::new();
        proof {
            assert(path_views(out@) =~= Seq::<Seq<u8>>::empty());
        }
        collect_added(&self.root, true, &mut out);
        proof {
            assert(path_views(out@) =~= added_views(self.entries()));
        }
        out
    }

    /// The same newly-added paths, by exhaustive traversal with no pruning;
    /// it asks for no consistency and visits every node.
    pub fn visit_added_unpruned(&self) -> (r: Vec<RepoPathBuf>)
        ensures
            path_views(r@) == added_views(self.entries()),
    {
        let mut out: Vec<RepoPathBuf> = Vec::new();
        proof {
            assert(path_views(out@) =~= Seq::<Seq<u8>>::empty());
        }
        collect_added(&self.root, false, &mut out);
        proof {
            assert(path_views(out@) =~= added_views(self.entries()));
        }
        out
    }

    /// The records whose flags meet the mask, each with its path, pruning
    /// subtrees whose or-aggregate misses the mask.
    pub fn visit_by_state(&self, mask: u16) -> (r: Vec<FileEntry>)
        requires
            self.wf(),
        ensures
            file_views(r@) == masked_views(self.entries(), mask),
    {
        let mut out: Vec<FileEntry> = Vec::new();
        proof {
            assert(file_views(out@) =~= Seq::<EntryV>::empty());
        }
        collect_masked(&self.root, mask, &mut out);
        proof {
            assert(file_views(out@) =~= masked_views(self.entries(), mask));
        }
        out
    }

    /// The record for a path, when the store holds one.
    pub fn get(&self, path: &RepoPathBuf) -> (r: Option<&FileState>)
        ensures
            match r {
                Some(st) => ts_lookup(self.entries(), path@) == Some(
                    EntryV { path: path@, bits: st.state, copied: copied_view(st.copied) },
                ),
                None => ts_lookup(self.entries(), path@) is None,
            },
    {
        get_in_node(&self.root, path)
    }
}

/// Law (pruning soundness): the added-path set computed by aggregate-pruned
/// traversal equals the set computed by exhaustive traversal, for any well
/// formed flag store; both answer with exactly the added paths of the store's
/// records, so pruning never drops a path.
pub proof fn lemma_pruning_sound(
    ts: TreeState,
    pruned: Vec<RepoPathBuf>,
    full: Vec<RepoPathBuf>,
)
    requires
        path_views(pruned@) == added_views(ts.entries()),
        path_views(full@) == added_views(ts.entries()),
    ensures
        path_views(pruned@) == path_views(full@),
{
}

} // verus!
