//! Deleting snapshots: protection, mounts, restorations, streams and
//! children are checked before a snapshot leaves the registry.
use vstd::prelude::*;
use crate::types::{ExofsError, ExofsResult, SnapshotId};
use crate::snapshot::snapshot::{flags, Snapshot};
use crate::snapshot::snapshot_list::{children_upto, has_key, index_of, keyed_by_id, keys_sorted, list_removed, SnapshotList, SnapshotListView};

verus! {

/// Options of a deletion.
#[derive(Clone, Copy, Debug)]
pub struct DeleteOptions {
    /// Delete the descendants first.
    pub cascade: bool,
    /// Delete even a protected snapshot.
    pub force: bool,
    /// Refuse a mounted snapshot.
    pub skip_mounted: bool,
}

impl Default for DeleteOptions {
    fn default() -> (r: DeleteOptions)
        ensures
            r == (DeleteOptions { cascade: false, force: false, skip_mounted: true }),
    {
        DeleteOptions { cascade: false, force: false, skip_mounted: true }
    }
}

/// What a deletion did.
#[derive(Clone, Debug)]
pub struct DeleteResult {
    pub id: SnapshotId,
    pub freed_bytes: u64,
    pub n_cascade: u32,
    pub cascade_ids: Vec<SnapshotId>,
}

/// Why a snapshot cannot be deleted.
#[derive(Clone, Copy, Debug, PartialEq, Eq, Structural)]
pub enum DeleteDenyReason {
    Protected,
    HasChildren,
    Mounted,
    Restoring,
    Streaming,
    NotFound,
}

/// `x + y`, clamped to `u64::MAX`.
pub open spec fn add64(x: u64, y: u64) -> u64 {
    if x + y > u64::MAX { u64::MAX } else { (x + y) as u64 }
}

/// The error of a refusal.
pub open spec fn deny_error(r: DeleteDenyReason) -> ExofsError {
    match r {
        DeleteDenyReason::NotFound => ExofsError::NotFound,
        _ => ExofsError::InvalidState,
    }
}

impl From<DeleteDenyReason> for ExofsError {
    fn from(r: DeleteDenyReason) -> (e: ExofsError) {
        match r {
            DeleteDenyReason::Protected => ExofsError::InvalidState,
            DeleteDenyReason::HasChildren => ExofsError::InvalidState,
            DeleteDenyReason::Mounted => ExofsError::InvalidState,
            DeleteDenyReason::Restoring => ExofsError::InvalidState,
            DeleteDenyReason::Streaming => ExofsError::InvalidState,
            DeleteDenyReason::NotFound => ExofsError::NotFound,
        }
    }
}

impl vstd::std_specs::convert::FromSpecImpl<DeleteDenyReason> for ExofsError {
    open spec fn obeys_from_spec() -> bool {
        true
    }

    open spec fn from_spec(r: DeleteDenyReason) -> ExofsError {
        deny_error(r)
    }
}

/// The first state of `s` that forbids its deletion under `o`.
pub open spec fn precondition_denial(s: Snapshot, o: DeleteOptions) -> Option<DeleteDenyReason> {
    if s.flags & flags::PROTECTED != 0 && !o.force {
        Some(DeleteDenyReason::Protected)
    } else if s.flags & flags::MOUNTED != 0 && o.skip_mounted {
        Some(DeleteDenyReason::Mounted)
    } else if s.flags & flags::RESTORING != 0 {
        Some(DeleteDenyReason::Restoring)
    } else if s.flags & flags::STREAMING != 0 {
        Some(DeleteDenyReason::Streaming)
    } else {
        None
    }
}

/// Where a cascade stands: the registry, the bytes freed, the descendants
/// deleted and their count.
pub struct Cascade {
    pub l: SnapshotListView,
    pub freed: u64,
    pub ids: Seq<SnapshotId>,
    pub n: u32,
}

/// Deleting the descendants of `parent` from `st`, children first: the
/// state reached and the error that stopped it, if any.
pub open spec fn cascade_spec(st: Cascade, parent: u64, o: DeleteOptions, rank: spec_fn(u64) -> nat) -> (Cascade, Option<ExofsError>)
    decreases rank(parent), 1int, 0int,
{
    let kids = children_upto(st.l.entries, SnapshotId(parent), st.l.entries.len() as int);
    cascade_kids(st, parent, kids, 0, o, rank)
}

/// Deleting the subtrees of the children `kids[j..]` of `parent`, then each
/// child, one after the other.
pub open spec fn cascade_kids(
    st: Cascade,
    parent: u64,
    kids: Seq<SnapshotId>,
    j: int,
    o: DeleteOptions,
    rank: spec_fn(u64) -> nat,
) -> (Cascade, Option<ExofsError>)
    decreases rank(parent), 0int, kids.len() - j,
{
    if j < 0 || j >= kids.len() {
        (st, None)
    } else if rank(kids[j].0) >= rank(parent) {
        cascade_kids(st, parent, kids, j + 1, o, rank)
    } else {
        let c = kids[j];
        let sub = cascade_spec(st, c.0, o, rank);
        let s1 = sub.0;
        if sub.1 is Some {
            sub
        } else if !has_key(s1.l.entries, c.0) {
            (s1, Some(ExofsError::NotFound))
        } else {
            let i = index_of(s1.l.entries, c.0);
            let child = s1.l.entries[i].1;
            if child.flags & flags::PROTECTED != 0 && !o.force {
                (s1, Some(ExofsError::InvalidState))
            } else {
                let s2 = Cascade { l: list_removed(s1.l, i), freed: add64(s1.freed, child.total_bytes), ids: s1.ids.push(c), n: s1.n };
                if s1.n == u32::MAX {
                    (s2, Some(ExofsError::Overflow))
                } else {
                    cascade_kids(Cascade { n: (s1.n + 1) as u32, ..s2 }, parent, kids, j + 1, o, rank)
                }
            }
        }
    }
}

/// What deleting `id` from `l` with `o` gives: the registry afterwards and
/// either the error, or the bytes freed, the number of descendants deleted
/// and their identifiers.
#[verifier::opaque]
pub open spec fn delete_outcome(l: SnapshotListView, id: SnapshotId, o: DeleteOptions) -> (SnapshotListView, ExofsResult<(u64, u32, Seq<SnapshotId>)>) {
    if !has_key(l.entries, id.0) {
        (l, Err(ExofsError::NotFound))
    } else {
        let i = index_of(l.entries, id.0);
        let snap = l.entries[i].1;
        if precondition_denial(snap, o) is Some {
            (l, Err(deny_error(precondition_denial(snap, o)->0)))
        } else if !o.cascade {
            if children_upto(l.entries, id, l.entries.len() as int).len() > 0 {
                (l, Err(ExofsError::InvalidState))
            } else {
                (list_removed(l, i), Ok((snap.total_bytes, 0u32, Seq::empty())))
            }
        } else if !o.force && protected_below(l.entries, id.0, rank_of(l.entries)) {
            (l, Err(ExofsError::InvalidState))
        } else {
            let c = cascade_spec(Cascade { l, freed: 0, ids: Seq::empty(), n: 0 }, id.0, o, rank_of(l.entries));
            if c.1 is Some {
                (c.0.l, Err(c.1->0))
            } else if !has_key(c.0.l.entries, id.0) {
                (c.0.l, Err(ExofsError::NotFound))
            } else {
                let j = index_of(c.0.l.entries, id.0);
                (list_removed(c.0.l, j), Ok((add64(c.0.freed, c.0.l.entries[j].1.total_bytes), c.0.n, c.0.ids)))
            }
        }
    }
}

/// The first `n` deletions of `ids` in turn: the registry reached and the
/// error that stopped the batch, if any.
pub open spec fn batch_upto(l: SnapshotListView, ids: Seq<SnapshotId>, o: DeleteOptions, n: int) -> (SnapshotListView, Option<ExofsError>)
    decreases n,
{
    if n <= 0 {
        (l, None)
    } else {
        let p = batch_upto(l, ids, o, n - 1);
        if p.1 is Some {
            p
        } else {
            let out = delete_outcome(p.0, ids[n - 1], o);
            match out.1 {
                Ok(_) => (out.0, None),
                Err(e) => (out.0, Some(e)),
            }
        }
    }
}

/// `res` reports the deletion of `id` whose outcome is `v`.
pub open spec fn reports(res: DeleteResult, id: SnapshotId, v: (u64, u32, Seq<SnapshotId>)) -> bool {
    res.id == id && res.freed_bytes == v.0 && res.n_cascade == v.1 && res.cascade_ids@ == v.2
}

/// `res` reports the `k`-th deletion of the batch `ids` started on `l`.
pub open spec fn batch_item(l: SnapshotListView, ids: Seq<SnapshotId>, o: DeleteOptions, k: int, res: DeleteResult) -> bool {
    match delete_outcome(batch_upto(l, ids, o, k).0, ids[k], o).1 {
        Ok(v) => reports(res, ids[k], v),
        Err(_) => false,
    }
}

proof fn lemma_batch_stops(l: SnapshotListView, ids: Seq<SnapshotId>, o: DeleteOptions, n: int, m: int)
    requires
        0 <= n <= m,
        batch_upto(l, ids, o, n).1 is Some,
    ensures
        batch_upto(l, ids, o, m) == batch_upto(l, ids, o, n),
    decreases m - n,
{
    if n < m {
        lemma_batch_stops(l, ids, o, n, m - 1);
    }
}

/// `rank` falls from the parent of each entry to the entry.
pub open spec fn ranked(s: Seq<(u64, Snapshot)>, rank: spec_fn(u64) -> nat) -> bool {
    forall|i: int| 0 <= i < s.len() ==> ((#[trigger] s[i]).1.parent_id matches Some(p) ==> rank(s[i].0) < rank(p.0))
}

/// Every entry holds the snapshot of its key, and no chain of parents loops
/// back on itself: some rank falls from each parent to its child.
pub open spec fn tree_ordered(s: Seq<(u64, Snapshot)>) -> bool {
    &&& forall|i: int| 0 <= i < s.len() ==> (#[trigger] s[i]).1.id.0 == s[i].0
    &&& exists|rank: spec_fn(u64) -> nat| ranked(s, rank)
}

/// Each entry's parent, if any, has a smaller id than the entry: so it is
/// when snapshots are created from ids handed out in increasing order.
pub open spec fn parents_first(s: Seq<(u64, Snapshot)>) -> bool {
    forall|i: int| 0 <= i < s.len() ==> ((#[trigger] s[i]).1.parent_id matches Some(p) ==> p.0 < s[i].0)
}

/// A registry keyed by id whose parents come first has no parent cycle.
pub proof fn lemma_parents_first(s: Seq<(u64, Snapshot)>)
    requires
        keyed_by_id(s),
        parents_first(s),
    ensures
        tree_ordered(s),
{
    let rank = |x: u64| (u64::MAX - x) as nat;
    assert forall|i: int| 0 <= i < s.len() implies ((#[trigger] s[i]).1.parent_id matches Some(p) ==> rank(s[i].0) < rank(p.0)) by {
        if s[i].1.parent_id is Some {
            assert((s[i].1.parent_id->0).0 < s[i].0);
        }
    }
    assert(ranked(s, rank));
}

/// A rank that falls from parents to children in `s`, when there is one.
pub open spec fn rank_of(s: Seq<(u64, Snapshot)>) -> spec_fn(u64) -> nat {
    choose|rank: spec_fn(u64) -> nat| ranked(s, rank)
}

/// A rank that falls from parents to children in `b` does so in any `a`
/// whose entries are entries of `b`.
proof fn lemma_ranked_within(a: Seq<(u64, Snapshot)>, b: Seq<(u64, Snapshot)>, rank: spec_fn(u64) -> nat)
    requires
        entries_within(a, b),
        ranked(b, rank),
    ensures
        ranked(a, rank),
{
    assert forall|i: int| 0 <= i < a.len() implies ((#[trigger] a[i]).1.parent_id matches Some(p) ==> rank(a[i].0) < rank(p.0)) by {
        assert(holds_entry(b, a[i]));
        let j = choose|j: int| 0 <= j < b.len() && b[j] == a[i];
        assert(b[j] == a[i]);
    }
}

/// `e` is an entry of `b`.
pub open spec fn holds_entry(b: Seq<(u64, Snapshot)>, e: (u64, Snapshot)) -> bool {
    exists|j: int| 0 <= j < b.len() && b[j] == e
}

/// Every entry of `a` is an entry of `b`.
pub open spec fn entries_within(a: Seq<(u64, Snapshot)>, b: Seq<(u64, Snapshot)>) -> bool {
    forall|i: int| 0 <= i < a.len() ==> #[trigger] holds_entry(b, a[i])
}

/// Every protected entry of `a` is still an entry of `b`.
pub open spec fn keeps_protected(a: Seq<(u64, Snapshot)>, b: Seq<(u64, Snapshot)>) -> bool {
    forall|i: int| 0 <= i < a.len() && (#[trigger] a[i]).1.flags & flags::PROTECTED != 0 ==> holds_entry(b, a[i])
}

proof fn lemma_remove_keeps(mid: Seq<(u64, Snapshot)>, ix: int, e: (u64, Snapshot))
    requires
        0 <= ix < mid.len(),
        holds_entry(mid, e),
        e != mid[ix],
    ensures
        holds_entry(mid.remove(ix), e),
{
    let j = choose|j: int| 0 <= j < mid.len() && mid[j] == e;
    if j < ix {
        assert(mid.remove(ix)[j] == e);
    } else {
        assert(mid.remove(ix)[j - 1] == e);
    }
}

/// Protection kept from `a` to `b` and from `b` to `c` is kept from `a` to `c`.
pub proof fn lemma_keeps_trans(a: Seq<(u64, Snapshot)>, b: Seq<(u64, Snapshot)>, c: Seq<(u64, Snapshot)>)
    requires
        keeps_protected(a, b),
        keeps_protected(b, c),
    ensures
        keeps_protected(a, c),
{
    assert forall|i: int| 0 <= i < a.len() && (#[trigger] a[i]).1.flags & flags::PROTECTED != 0 implies holds_entry(c, a[i]) by {
        let j = choose|j: int| 0 <= j < b.len() && b[j] == a[i];
        assert(b[j].1.flags & flags::PROTECTED != 0);
    }
}

/// In ordered keys, the entry of a key found in `mid`, which lies within
/// `s`, is the entry of that key in `s`.
proof fn lemma_same_entry(mid: Seq<(u64, Snapshot)>, s: Seq<(u64, Snapshot)>, ix: int, i: int)
    requires
        keys_sorted(s),
        entries_within(mid, s),
        0 <= ix < mid.len(),
        0 <= i < s.len(),
        mid[ix].0 == s[i].0,
    ensures
        mid[ix] == s[i],
{
    assert(holds_entry(s, mid[ix]));
    let j = choose|j: int| 0 <= j < s.len() && s[j] == mid[ix];
    if j < i {
        assert(s[j].0 < s[i].0);
    } else if j > i {
        assert(s[i].0 < s[j].0);
    }
}

/// The snapshot of key `k` (meaningful when there is one).
pub open spec fn entry_of(s: Seq<(u64, Snapshot)>, k: u64) -> Snapshot {
    s[choose|i: int| 0 <= i < s.len() && s[i].0 == k].1
}

/// Bytes freed by deleting `id` and its descendants, summed with overflow
/// checks child by child, as `estimate_cascade_freed` does.
pub open spec fn subtree_bytes(s: Seq<(u64, Snapshot)>, id: u64, rank: spec_fn(u64) -> nat) -> ExofsResult<u64>
    decreases rank(id), s.len() + 1,
{
    if !has_key(s, id) {
        Err(ExofsError::NotFound)
    } else {
        let kids = children_upto(s, SnapshotId(id), s.len() as int);
        kids_bytes(s, id, kids, if kids.len() <= s.len() { kids.len() as int } else { 0 }, rank)
    }
}

/// The running total after the first `k` children of `parent`.
pub open spec fn kids_bytes(s: Seq<(u64, Snapshot)>, parent: u64, kids: Seq<SnapshotId>, k: int, rank: spec_fn(u64) -> nat) -> ExofsResult<u64>
    decreases rank(parent), if k >= 0 { k } else { 0 },
{
    if k <= 0 || k > kids.len() {
        Ok(entry_of(s, parent).total_bytes)
    } else {
        match kids_bytes(s, parent, kids, k - 1, rank) {
            Err(e) => Err(e),
            Ok(t) => {
                let c = kids[k - 1].0;
                if rank(c) >= rank(parent) {
                    Err(ExofsError::InvalidState)
                } else {
                    match subtree_bytes(s, c, rank) {
                        Err(e) => Err(e),
                        Ok(b) => if t + b > u64::MAX { Err(ExofsError::Overflow) } else { Ok((t + b) as u64) },
                    }
                }
            },
        }
    }
}

/// Descendants of `id` then `id`, children before parents.
pub open spec fn order_of(s: Seq<(u64, Snapshot)>, id: u64, rank: spec_fn(u64) -> nat) -> Seq<SnapshotId>
    decreases rank(id), s.len() + 1,
{
    let kids = children_upto(s, SnapshotId(id), s.len() as int);
    kids_order(s, id, kids, if kids.len() <= s.len() { kids.len() as int } else { 0 }, rank).push(SnapshotId(id))
}

/// The orders of the first `k` children of `parent`, one after the other.
pub open spec fn kids_order(s: Seq<(u64, Snapshot)>, parent: u64, kids: Seq<SnapshotId>, k: int, rank: spec_fn(u64) -> nat) -> Seq<SnapshotId>
    decreases rank(parent), if k >= 0 { k } else { 0 },
{
    if k <= 0 || k > kids.len() {
        Seq::empty()
    } else {
        let c = kids[k - 1].0;
        kids_order(s, parent, kids, k - 1, rank) + (if rank(c) >= rank(parent) { Seq::empty() } else { order_of(s, c, rank) })
    }
}

/// Some descendant of `id` in `s` is protected.
pub open spec fn protected_below(s: Seq<(u64, Snapshot)>, id: u64, rank: spec_fn(u64) -> nat) -> bool
    decreases rank(id), s.len() + 1,
{
    let kids = children_upto(s, SnapshotId(id), s.len() as int);
    kids_protected(s, id, kids, if kids.len() <= s.len() { kids.len() as int } else { 0 }, rank)
}

/// One of the first `k` children of `parent`, or one of their descendants,
/// is protected.
pub open spec fn kids_protected(s: Seq<(u64, Snapshot)>, parent: u64, kids: Seq<SnapshotId>, k: int, rank: spec_fn(u64) -> nat) -> bool
    decreases rank(parent), if k >= 0 { k } else { 0 },
{
    if k <= 0 || k > kids.len() {
        false
    } else {
        let c = kids[k - 1].0;
        kids_protected(s, parent, kids, k - 1, rank) || (rank(c) < rank(parent) && (entry_of(s, c).flags & flags::PROTECTED != 0
            || protected_below(s, c, rank)))
    }
}

proof fn lemma_kids_protected_mono(s: Seq<(u64, Snapshot)>, parent: u64, kids: Seq<SnapshotId>, k: int, m: int, rank: spec_fn(u64) -> nat)
    requires
        0 <= k <= m <= kids.len(),
        kids_protected(s, parent, kids, k, rank),
    ensures
        kids_protected(s, parent, kids, m, rank),
    decreases m - k,
{
    if m > k {
        lemma_kids_protected_mono(s, parent, kids, k, m - 1, rank);
    }
}

/// Bytes freed by deleting `id` and its descendants from `s`.
pub open spec fn cascade_bytes(s: Seq<(u64, Snapshot)>, id: u64) -> ExofsResult<u64> {
    subtree_bytes(s, id, rank_of(s))
}

/// The descendants of `id` in `s`, then `id`, children before parents.
pub open spec fn cascade_order(s: Seq<(u64, Snapshot)>, id: u64) -> Seq<SnapshotId> {
    order_of(s, id, rank_of(s))
}

proof fn lemma_children_later(s: Seq<(u64, Snapshot)>, parent: SnapshotId, n: int, rank: spec_fn(u64) -> nat)
    requires
        tree_ordered(s),
        ranked(s, rank),
        0 <= n <= s.len(),
    ensures
        children_upto(s, parent, n).len() <= n,
        forall|j: int| 0 <= j < children_upto(s, parent, n).len() ==> rank((#[trigger] children_upto(s, parent, n)[j]).0) < rank(parent.0)
            && has_key(s, children_upto(s, parent, n)[j].0),
    decreases n,
{
    if n > 0 {
        lemma_children_later(s, parent, n - 1, rank);
        let p = children_upto(s, parent, n - 1);
        if s[n - 1].1.parent_id == Some(parent) {
            assert(s[n - 1].1.id.0 == s[n - 1].0);
            assert forall|j: int| 0 <= j < children_upto(s, parent, n).len() implies rank((#[trigger] children_upto(s, parent, n)[j]).0)
                < rank(parent.0) && has_key(s, children_upto(s, parent, n)[j].0) by {
                if j < p.len() {
                    assert(children_upto(s, parent, n)[j] == p[j]);
                } else {
                    assert(children_upto(s, parent, n)[j] == s[n - 1].1.id);
                    assert(s[n - 1].0 == s[n - 1].1.id.0);
                }
            }
        }
    }
}

proof fn lemma_kids_err(s: Seq<(u64, Snapshot)>, parent: u64, kids: Seq<SnapshotId>, k: int, m: int, rank: spec_fn(u64) -> nat)
    requires
        1 <= k <= m <= kids.len(),
        kids_bytes(s, parent, kids, k, rank) is Err,
    ensures
        kids_bytes(s, parent, kids, m, rank) == kids_bytes(s, parent, kids, k, rank),
    decreases m - k,
{
    if m > k {
        lemma_kids_err(s, parent, kids, k, m - 1, rank);
    }
}

proof fn lemma_entry_of(s: Seq<(u64, Snapshot)>, i: int)
    requires
        keys_sorted(s),
        0 <= i < s.len(),
    ensures
        entry_of(s, s[i].0) == s[i].1,
{
    let j = choose|j: int| 0 <= j < s.len() && s[j].0 == s[i].0;
    if j < i {
        assert(s[j].0 < s[i].0);
    } else if j > i {
        assert(s[i].0 < s[j].0);
    }
}

/// Deleter of snapshots.
pub struct SnapshotDeleter;

impl SnapshotDeleter {
    /// Deletes the snapshot `id` of `list` once its state allows it; with
    /// `cascade`, its descendants go first, else it must have no children.
    pub fn delete(list: &mut SnapshotList, id: SnapshotId, opts: DeleteOptions) -> (r: ExofsResult<DeleteResult>)
        requires
            old(list).wf(),
            opts.cascade ==> tree_ordered(old(list)@.entries),
        ensures
            final(list).wf(),
            tree_ordered(old(list)@.entries) ==> tree_ordered(final(list)@.entries),
            entries_within(final(list)@.entries, old(list)@.entries),
            !opts.force ==> keeps_protected(old(list)@.entries, final(list)@.entries),
            r matches Ok(res) ==> res.id == id && !has_key(final(list)@.entries, id.0) && res.n_cascade == res.cascade_ids@.len()
                && forall|k: int| 0 <= k < res.cascade_ids@.len() ==> !has_key(final(list)@.entries, (#[trigger] res.cascade_ids@[k]).0),
            ({
                let out = delete_outcome(old(list)@, id, opts);
                &&& final(list)@ == out.0
                &&& out.1 matches Err(e) ==> r == Err::<DeleteResult, ExofsError>(e)
                &&& out.1 matches Ok(v) ==> (r matches Ok(res) && reports(res, id, v))
            }),
    {
        proof {
            list.lemma_wf();
            reveal(delete_outcome);
        }
        let snap = match list.get(id) {
            Ok(s) => s,
            Err(_) => return Err(ExofsError::NotFound),
        };
        Self::check_preconditions(&snap, opts)?;
        if opts.cascade && !opts.force && Self::any_protected_below(list, id) {
            return Err(ExofsError::InvalidState);
        }
        let mut total_freed: u64 = 0;
        let mut cascade_ids: Vec<SnapshotId> = Vec::new();
        let mut n_cascade: u32 = 0;
        if opts.cascade {
            Self::cascade_delete(list, id, opts, &mut total_freed, &mut cascade_ids, &mut n_cascade, Ghost(rank_of(list@.entries)))?;
        } else {
            let children = match list.children_of(id) {
                Ok(c) => c,
                Err(e) => return Err(e),
            };
            if children.len() != 0 {
                return Err(ExofsError::from(DeleteDenyReason::HasChildren));
            }
        }
        let ghost mid = list@.entries;
        proof {
            list.lemma_wf();
        }
        proof {
            if !opts.cascade {
                assert forall|a: int| 0 <= a < mid.len() implies #[trigger] holds_entry(old(list)@.entries, mid[a]) by {
                    assert(old(list)@.entries[a] == mid[a]);
                }
                assert forall|a: int| 0 <= a < old(list)@.entries.len() && (#[trigger] old(list)@.entries[a]).1.flags & flags::PROTECTED != 0
                    implies holds_entry(mid, old(list)@.entries[a]) by {
                    assert(mid[a] == old(list)@.entries[a]);
                }
            }
        }
        proof {
            if has_key(mid, id.0) {
                let j = index_of(mid, id.0);
                assert(mid[j].0 == id.0);
            }
        }
        let removed = list.remove(id)?;
        proof {
            list.lemma_wf();
            let i = choose|i: int| 0 <= i < mid.len() && (#[trigger] mid[i]).0 == id.0;
            assert(list@.entries == mid.remove(i));
            if !opts.force {
                let i0 = choose|i0: int| 0 <= i0 < old(list)@.entries.len() && (#[trigger] old(list)@.entries[i0]).0 == id.0
                    && snap == old(list)@.entries[i0].1;
                lemma_same_entry(mid, old(list)@.entries, i, i0);
                assert forall|a: int| 0 <= a < old(list)@.entries.len() && (#[trigger] old(list)@.entries[a]).1.flags & flags::PROTECTED != 0
                    implies holds_entry(list@.entries, old(list)@.entries[a]) by {
                    assert(holds_entry(mid, old(list)@.entries[a]));
                    assert(old(list)@.entries[a] != mid[i]);
                    lemma_remove_keeps(mid, i, old(list)@.entries[a]);
                }
            }
            assert forall|a: int| 0 <= a < list@.entries.len() implies #[trigger] holds_entry(mid, list@.entries[a]) by {
                if a < i {
                    assert(mid[a] == list@.entries[a]);
                } else {
                    assert(mid[a + 1] == list@.entries[a]);
                }
            }
            assert forall|k: int| 0 <= k < list@.entries.len() implies (#[trigger] list@.entries[k]).0 != id.0 by {
                if k < i {
                    assert(list@.entries[k] == mid[k]);
                    assert(mid[k].0 < mid[i].0);
                } else {
                    assert(list@.entries[k] == mid[k + 1]);
                    assert(mid[i].0 < mid[k + 1].0);
                }
            }
            assert forall|k: int| 0 <= k < cascade_ids@.len() implies !has_key(list@.entries, (#[trigger] cascade_ids@[k]).0) by {
                assert(!has_key(mid, cascade_ids@[k].0));
                if has_key(list@.entries, cascade_ids@[k].0) {
                    let a = choose|a: int| 0 <= a < list@.entries.len() && (#[trigger] list@.entries[a]).0 == cascade_ids@[k].0;
                    assert(holds_entry(mid, list@.entries[a]));
                    let b = choose|b: int| 0 <= b < mid.len() && mid[b] == list@.entries[a];
                    assert(mid[b].0 == cascade_ids@[k].0);
                }
            }
            Self::lemma_within_trans(list@.entries, mid, old(list)@.entries);
        }
        total_freed = total_freed.saturating_add(removed.total_bytes);
        Ok(DeleteResult { id, freed_bytes: total_freed, n_cascade, cascade_ids })
    }

    /// Deletes each id in turn with `opts`; stops at the first error.
    pub fn delete_batch(list: &mut SnapshotList, ids: &[SnapshotId], opts: DeleteOptions) -> (r: ExofsResult<Vec<DeleteResult>>)
        requires
            old(list).wf(),
            tree_ordered(old(list)@.entries),
        ensures
            final(list).wf(),
            tree_ordered(final(list)@.entries),
            ({
                let b = batch_upto(old(list)@, ids@, opts, ids@.len() as int);
                &&& final(list)@ == b.0
                &&& b.1 matches Some(e) ==> r == Err::<Vec<DeleteResult>, ExofsError>(e)
                &&& b.1 is None ==> (r matches Ok(v) && v@.len() == ids@.len()
                    && forall|k: int| 0 <= k < v@.len() ==> batch_item(old(list)@, ids@, opts, k, #[trigger] v@[k]))
            }),
            !opts.force ==> keeps_protected(old(list)@.entries, final(list)@.entries),
    {
        let mut results: Vec<DeleteResult> = Vec::new();
        let mut i: usize = 0;
        while i < ids.len()
            invariant
                list.wf(),
                tree_ordered(list@.entries),
                0 <= i <= ids@.len(),
                results@.len() == i,
                list@ == batch_upto(old(list)@, ids@, opts, i as int).0,
                batch_upto(old(list)@, ids@, opts, i as int).1 is None,
                forall|k: int| 0 <= k < i ==> batch_item(old(list)@, ids@, opts, k, #[trigger] results@[k]),
                !opts.force ==> keeps_protected(old(list)@.entries, list@.entries),
            decreases ids.len() - i,
        {
            let ghost before = list@.entries;
            let res = match Self::delete(list, ids[i], opts) {
                Ok(res) => res,
                Err(e) => {
                    proof {
                        if !opts.force {
                            lemma_keeps_trans(old(list)@.entries, before, list@.entries);
                        }
                        lemma_batch_stops(old(list)@, ids@, opts, i + 1, ids@.len() as int);
                    }
                    return Err(e);
                },
            };
            proof {
                if !opts.force {
                    lemma_keeps_trans(old(list)@.entries, before, list@.entries);
                }
            }
            results.push(res);
            i += 1;
        }
        Ok(results)
    }

    /// Refuses a protected snapshot (without `force`), a mounted one (with
    /// `skip_mounted`), one being restored and one being streamed.
    pub fn check_preconditions(snap: &Snapshot, opts: DeleteOptions) -> (r: ExofsResult<()>)
        ensures
            precondition_denial(*snap, opts) matches Some(d) ==> r == Err::<(), ExofsError>(deny_error(d)),
            precondition_denial(*snap, opts) is None ==> r is Ok,
    {
        if snap.is_protected() && !opts.force {
            return Err(ExofsError::from(DeleteDenyReason::Protected));
        }
        if snap.is_mounted() && opts.skip_mounted {
            return Err(ExofsError::from(DeleteDenyReason::Mounted));
        }
        if snap.is_restoring() {
            return Err(ExofsError::from(DeleteDenyReason::Restoring));
        }
        if snap.is_streaming() {
            return Err(ExofsError::from(DeleteDenyReason::Streaming));
        }
        Ok(())
    }

    fn cascade_delete(
        list: &mut SnapshotList,
        parent_id: SnapshotId,
        opts: DeleteOptions,
        total_freed: &mut u64,
        cascade_ids: &mut Vec<SnapshotId>,
        n_cascade: &mut u32,
        Ghost(rank): Ghost<spec_fn(u64) -> nat>,
    ) -> (r: ExofsResult<()>)
        requires
            old(list).wf(),
            tree_ordered(old(list)@.entries),
            ranked(old(list)@.entries, rank),
            *old(n_cascade) == old(cascade_ids)@.len(),
            forall|k: int| 0 <= k < old(cascade_ids)@.len() ==> !has_key(old(list)@.entries, (#[trigger] old(cascade_ids)@[k]).0),
        ensures
            final(list).wf(),
            tree_ordered(final(list)@.entries),
            entries_within(final(list)@.entries, old(list)@.entries),
            !opts.force ==> keeps_protected(old(list)@.entries, final(list)@.entries),
            r is Ok ==> *final(n_cascade) == final(cascade_ids)@.len(),
            r is Ok ==> forall|k: int| 0 <= k < final(cascade_ids)@.len() ==> !has_key(final(list)@.entries, (#[trigger] final(cascade_ids)@[k]).0),
            ({
                let c = cascade_spec(Cascade { l: old(list)@, freed: *old(total_freed), ids: old(cascade_ids)@, n: *old(n_cascade) },
                    parent_id.0, opts, rank);
                &&& final(list)@ == c.0.l && *final(total_freed) == c.0.freed && final(cascade_ids)@ == c.0.ids
                &&& *final(n_cascade) == c.0.n
                &&& c.1 matches Some(e) ==> r == Err::<(), ExofsError>(e)
                &&& c.1 is None ==> r is Ok
            }),
        decreases rank(parent_id.0),
    {
        proof {
            list.lemma_wf();
        }
        let children = match list.children_of(parent_id) {
            Ok(c) => c,
            Err(e) => return Err(e),
        };
        proof {
            lemma_children_later(list@.entries, parent_id, list@.entries.len() as int, rank);
        }
        let ghost start = list@.entries;
        let ghost goal = cascade_spec(Cascade { l: old(list)@, freed: *old(total_freed), ids: old(cascade_ids)@, n: *old(n_cascade) },
            parent_id.0, opts, rank);
        proof {
            assert(goal == cascade_kids(Cascade { l: list@, freed: *total_freed, ids: cascade_ids@, n: *n_cascade }, parent_id.0,
                children@, 0, opts, rank));
        }
        let mut i: usize = 0;
        while i < children.len()
            invariant
                goal == cascade_spec(Cascade { l: old(list)@, freed: *old(total_freed), ids: old(cascade_ids)@, n: *old(n_cascade) },
                    parent_id.0, opts, rank),
                goal == cascade_kids(Cascade { l: list@, freed: *total_freed, ids: cascade_ids@, n: *n_cascade }, parent_id.0,
                    children@, i as int, opts, rank),
                ranked(old(list)@.entries, rank),
                ranked(list@.entries, rank),
                list.wf(),
                tree_ordered(list@.entries),
                entries_within(list@.entries, old(list)@.entries),
                entries_within(start, old(list)@.entries),
                !opts.force ==> keeps_protected(old(list)@.entries, list@.entries),
                0 <= i <= children@.len(),
                forall|j: int| 0 <= j < children@.len() ==> rank((#[trigger] children@[j]).0) < rank(parent_id.0),
                *n_cascade == cascade_ids@.len(),
                forall|k: int| 0 <= k < cascade_ids@.len() ==> !has_key(list@.entries, (#[trigger] cascade_ids@[k]).0),
            decreases children.len() - i,
        {
            let child_id = children[i];
            let ghost before = list@.entries;
            proof {
                assert(rank(child_id.0) < rank(parent_id.0));
            }
            let sub = Self::cascade_delete(list, child_id, opts, total_freed, cascade_ids, n_cascade, Ghost(rank));
            proof {
                Self::lemma_within_trans(list@.entries, before, old(list)@.entries);
                lemma_ranked_within(list@.entries, old(list)@.entries, rank);
                list.lemma_wf();
                if !opts.force {
                    lemma_keeps_trans(old(list)@.entries, before, list@.entries);
                }
            }
            match sub {
                Ok(_) => {},
                Err(e) => return Err(e),
            }
            let child = match list.get(child_id) {
                Ok(c) => c,
                Err(_) => return Err(ExofsError::NotFound),
            };
            if child.is_protected() && !opts.force {
                return Err(ExofsError::from(DeleteDenyReason::Protected));
            }
            let ghost mid = list@.entries;
            let removed = list.remove(child_id)?;
            proof {
                list.lemma_wf();
                let ix = choose|ix: int| 0 <= ix < mid.len() && (#[trigger] mid[ix]).0 == child_id.0;
                assert(list@.entries == mid.remove(ix));
                if !opts.force {
                    let c0 = choose|c0: int| 0 <= c0 < mid.len() && (#[trigger] mid[c0]).0 == child_id.0 && child == mid[c0].1;
                    if c0 < ix {
                        assert(mid[c0].0 < mid[ix].0);
                    } else if c0 > ix {
                        assert(mid[ix].0 < mid[c0].0);
                    }
                    assert forall|a: int| 0 <= a < old(list)@.entries.len() && (#[trigger] old(list)@.entries[a]).1.flags & flags::PROTECTED != 0
                        implies holds_entry(list@.entries, old(list)@.entries[a]) by {
                        assert(holds_entry(mid, old(list)@.entries[a]));
                        assert(old(list)@.entries[a] != mid[ix]);
                        lemma_remove_keeps(mid, ix, old(list)@.entries[a]);
                    }
                }
                assert forall|a: int| 0 <= a < list@.entries.len() implies #[trigger] holds_entry(mid, list@.entries[a]) by {
                    if a < ix {
                        assert(mid[a] == list@.entries[a]);
                    } else {
                        assert(mid[a + 1] == list@.entries[a]);
                    }
                }
                Self::lemma_within_trans(list@.entries, mid, old(list)@.entries);
                lemma_ranked_within(list@.entries, old(list)@.entries, rank);
                assert forall|k: int| 0 <= k < list@.entries.len() implies (#[trigger] list@.entries[k]).0 != child_id.0 by {
                    if k < ix {
                        assert(list@.entries[k] == mid[k]);
                        assert(mid[k].0 < mid[ix].0);
                    } else {
                        assert(list@.entries[k] == mid[k + 1]);
                        assert(mid[ix].0 < mid[k + 1].0);
                    }
                }
                assert forall|k: int| 0 <= k < cascade_ids@.len() implies !has_key(list@.entries, (#[trigger] cascade_ids@[k]).0) by {
                    if has_key(list@.entries, cascade_ids@[k].0) {
                        let a = choose|a: int| 0 <= a < list@.entries.len() && (#[trigger] list@.entries[a]).0 == cascade_ids@[k].0;
                        assert(holds_entry(mid, list@.entries[a]));
                        let b = choose|b: int| 0 <= b < mid.len() && mid[b] == list@.entries[a];
                        assert(mid[b].0 == cascade_ids@[k].0);
                    }
                }
            }
            *total_freed = total_freed.saturating_add(removed.total_bytes);
            cascade_ids.push(child_id);
            *n_cascade = match n_cascade.checked_add(1) {
                Some(n) => n,
                None => return Err(ExofsError::Overflow),
            };
            i += 1;
        }
        Ok(())
    }

    /// `a` within `b` within `c` gives `a` within `c`; the keys stay ordered
    /// and the tree order holds on `a` when it holds on `c`.
    pub proof fn lemma_within_trans(a: Seq<(u64, Snapshot)>, b: Seq<(u64, Snapshot)>, c: Seq<(u64, Snapshot)>)
        requires
            entries_within(a, b),
            entries_within(b, c),
        ensures
            entries_within(a, c),
            tree_ordered(c) ==> tree_ordered(a),
    {
        assert forall|i: int| 0 <= i < a.len() implies #[trigger] holds_entry(c, a[i]) by {
            assert(holds_entry(b, a[i]));
            let j = choose|j: int| 0 <= j < b.len() && b[j] == a[i];
            assert(holds_entry(c, b[j]));
            let k = choose|k: int| 0 <= k < c.len() && c[k] == b[j];
            assert(c[k] == a[i]);
        }
        if tree_ordered(c) {
            assert forall|i: int| 0 <= i < a.len() implies (#[trigger] a[i]).1.id.0 == a[i].0 by {
                assert(holds_entry(c, a[i]));
                let k = choose|k: int| 0 <= k < c.len() && c[k] == a[i];
                assert(c[k] == a[i]);
            }
            lemma_ranked_within(a, c, rank_of(c));
        }
    }

    /// True iff `id` is present, its state allows the deletion, and (without
    /// `cascade`) it has no children.
    pub fn can_delete(list: &SnapshotList, id: SnapshotId, opts: DeleteOptions) -> (r: bool)
        requires
            list.wf(),
        ensures
            r == (Self::deny_reason_spec(list@, id, opts) is None),
    {
        Self::deny_reason(list, id, opts).is_none()
    }

    /// Why `id` cannot be deleted under `opts`, checked in that order.
    pub open spec fn deny_reason_spec(list: SnapshotListView, id: SnapshotId, opts: DeleteOptions) -> Option<DeleteDenyReason> {
        if !has_key(list.entries, id.0) {
            Some(DeleteDenyReason::NotFound)
        } else if precondition_denial(entry_of(list.entries, id.0), opts) is Some {
            precondition_denial(entry_of(list.entries, id.0), opts)
        } else if !opts.cascade && children_upto(list.entries, id, list.entries.len() as int).len() > 0 {
            Some(DeleteDenyReason::HasChildren)
        } else {
            None
        }
    }

    /// `deny_reason` foretells `delete`: a reason it gives is the error the
    /// deletion fails with, the registry left as it was; without cascade,
    /// with no reason the deletion succeeds.
    pub proof fn lemma_deny_reason_agrees(l: SnapshotListView, id: SnapshotId, o: DeleteOptions)
        ensures
            Self::deny_reason_spec(l, id, o) matches Some(d) ==> delete_outcome(l, id, o).1 == Err::<(u64, u32, Seq<SnapshotId>), ExofsError>(deny_error(d))
                && delete_outcome(l, id, o).0 == l,
            !o.cascade && Self::deny_reason_spec(l, id, o) is None ==> delete_outcome(l, id, o).1 is Ok,
    {
        reveal(delete_outcome);
    }

    /// A snapshot being restored or streamed is never deleted, whatever the
    /// options: its deletion is refused with `InvalidState` and the registry
    /// is left as it was; the reason given is `Restoring` (or `Streaming`)
    /// unless protection or mounting already refuses it.
    pub proof fn lemma_busy_snapshot_not_deleted(l: SnapshotListView, id: SnapshotId, o: DeleteOptions)
        requires
            has_key(l.entries, id.0),
            entry_of(l.entries, id.0).flags & flags::RESTORING != 0 || entry_of(l.entries, id.0).flags & flags::STREAMING != 0,
        ensures
            precondition_denial(entry_of(l.entries, id.0), o) is Some,
            deny_error(precondition_denial(entry_of(l.entries, id.0), o)->0) == ExofsError::InvalidState,
            Self::deny_reason_spec(l, id, o) is Some,
            delete_outcome(l, id, o) == (l, Err::<(u64, u32, Seq<SnapshotId>), ExofsError>(ExofsError::InvalidState)),
            !(entry_of(l.entries, id.0).flags & flags::PROTECTED != 0 && !o.force)
                && !(entry_of(l.entries, id.0).flags & flags::MOUNTED != 0 && o.skip_mounted) ==> Self::deny_reason_spec(l, id, o) == Some(
                if entry_of(l.entries, id.0).flags & flags::RESTORING != 0 {
                    DeleteDenyReason::Restoring
                } else {
                    DeleteDenyReason::Streaming
                },
            ),
    {
        Self::lemma_deny_reason_agrees(l, id, o);
    }

    /// A protected snapshot is never deleted without `force`, nor a mounted
    /// one when mounted snapshots are to be skipped: the deletion is refused
    /// with `InvalidState` and the registry is left as it was.
    pub proof fn lemma_guarded_snapshot_not_deleted(l: SnapshotListView, id: SnapshotId, o: DeleteOptions)
        requires
            has_key(l.entries, id.0),
            (entry_of(l.entries, id.0).flags & flags::PROTECTED != 0 && !o.force) || (entry_of(l.entries, id.0).flags & flags::MOUNTED != 0
                && o.skip_mounted),
        ensures
            Self::deny_reason_spec(l, id, o) is Some,
            delete_outcome(l, id, o) == (l, Err::<(u64, u32, Seq<SnapshotId>), ExofsError>(ExofsError::InvalidState)),
            entry_of(l.entries, id.0).flags & flags::PROTECTED != 0 && !o.force ==> Self::deny_reason_spec(l, id, o) == Some(
                DeleteDenyReason::Protected),
    {
        Self::lemma_deny_reason_agrees(l, id, o);
    }

    /// Without cascade, a snapshot with children is not deleted: the
    /// deletion fails with `InvalidState` and the registry is unchanged.
    pub proof fn lemma_parent_not_deleted_alone(l: SnapshotListView, id: SnapshotId, o: DeleteOptions)
        requires
            has_key(l.entries, id.0),
            !o.cascade,
            children_upto(l.entries, id, l.entries.len() as int).len() > 0,
        ensures
            delete_outcome(l, id, o).0 == l,
            delete_outcome(l, id, o).1 is Err,
    {
        reveal(delete_outcome);
    }

    /// The reason why `id` cannot be deleted, or `None`.
    pub fn deny_reason(list: &SnapshotList, id: SnapshotId, opts: DeleteOptions) -> (r: Option<DeleteDenyReason>)
        requires
            list.wf(),
        ensures
            r == Self::deny_reason_spec(list@, id, opts),
    {
        proof {
            list.lemma_wf();
        }
        let snap = match list.get(id) {
            Ok(s) => s,
            Err(_) => return Some(DeleteDenyReason::NotFound),
        };
        proof {
            let i = choose|i: int| 0 <= i < list@.entries.len() && (#[trigger] list@.entries[i]).0 == id.0 && snap == list@.entries[i].1;
            lemma_entry_of(list@.entries, i);
        }
        if snap.is_protected() && !opts.force {
            return Some(DeleteDenyReason::Protected);
        }
        if snap.is_mounted() && opts.skip_mounted {
            return Some(DeleteDenyReason::Mounted);
        }
        if snap.is_restoring() {
            return Some(DeleteDenyReason::Restoring);
        }
        if snap.is_streaming() {
            return Some(DeleteDenyReason::Streaming);
        }
        if !opts.cascade {
            let children = match list.children_of(id) {
                Ok(c) => c,
                Err(_) => return Some(DeleteDenyReason::NotFound),
            };
            if children.len() != 0 {
                return Some(DeleteDenyReason::HasChildren);
            }
        }
        None
    }

    /// Bytes that deleting `id` with its descendants would free, with
    /// overflow checks.
    pub fn estimate_cascade_freed(list: &SnapshotList, id: SnapshotId) -> (r: ExofsResult<u64>)
        requires
            list.wf(),
            tree_ordered(list@.entries),
        ensures
            r == cascade_bytes(list@.entries, id.0),
        decreases rank_of(list@.entries)(id.0),
    {
        proof {
            list.lemma_wf();
        }
        let snap = match list.get(id) {
            Ok(s) => s,
            Err(_) => return Err(ExofsError::NotFound),
        };
        proof {
            let i = choose|i: int| 0 <= i < list@.entries.len() && (#[trigger] list@.entries[i]).0 == id.0 && snap == list@.entries[i].1;
            lemma_entry_of(list@.entries, i);
        }
        let mut total = snap.total_bytes;
        let children = match list.children_of(id) {
            Ok(c) => c,
            Err(e) => return Err(e),
        };
        let ghost rank = rank_of(list@.entries);
        proof {
            lemma_children_later(list@.entries, id, list@.entries.len() as int, rank);
        }
        let ghost kids = children@;
        let mut i: usize = 0;
        while i < children.len()
            invariant
                list.wf(),
                tree_ordered(list@.entries),
                rank == rank_of(list@.entries),
                kids == children@,
                kids == children_upto(list@.entries, id, list@.entries.len() as int),
                kids.len() <= list@.entries.len(),
                forall|j: int| 0 <= j < kids.len() ==> rank((#[trigger] kids[j]).0) < rank(id.0),
                0 <= i <= kids.len(),
                kids_bytes(list@.entries, id.0, kids, i as int, rank) == Ok::<u64, ExofsError>(total),
                has_key(list@.entries, id.0),
            decreases children.len() - i,
        {
            let child_freed = match Self::estimate_cascade_freed(list, children[i]) {
                Ok(c) => c,
                Err(e) => {
                    proof {
                        assert(kids_bytes(list@.entries, id.0, kids, i + 1, rank) == Err::<u64, ExofsError>(e));
                        lemma_kids_err(list@.entries, id.0, kids, i + 1, kids.len() as int, rank);
                        assert(subtree_bytes(list@.entries, id.0, rank) == kids_bytes(list@.entries, id.0, kids, kids.len() as int, rank));
                    }
                    return Err(e);
                },
            };
            total = match total.checked_add(child_freed) {
                Some(t) => t,
                None => {
                    proof {
                        assert(kids_bytes(list@.entries, id.0, kids, i + 1, rank) == Err::<u64, ExofsError>(ExofsError::Overflow));
                        lemma_kids_err(list@.entries, id.0, kids, i + 1, kids.len() as int, rank);
                        assert(subtree_bytes(list@.entries, id.0, rank) == kids_bytes(list@.entries, id.0, kids, kids.len() as int, rank));
                    }
                    return Err(ExofsError::Overflow);
                },
            };
            i += 1;
        }
        Ok(total)
    }

    /// True iff some descendant of `id` is protected.
    fn any_protected_below(list: &SnapshotList, id: SnapshotId) -> (r: bool)
        requires
            list.wf(),
            tree_ordered(list@.entries),
        ensures
            r == protected_below(list@.entries, id.0, rank_of(list@.entries)),
        decreases rank_of(list@.entries)(id.0),
    {
        proof {
            list.lemma_wf();
        }
        let children = match list.children_of(id) {
            Ok(c) => c,
            Err(_) => return false,
        };
        let ghost rank = rank_of(list@.entries);
        proof {
            lemma_children_later(list@.entries, id, list@.entries.len() as int, rank);
        }
        let ghost kids = children@;
        let mut i: usize = 0;
        while i < children.len()
            invariant
                list.wf(),
                tree_ordered(list@.entries),
                rank == rank_of(list@.entries),
                kids == children@,
                kids == children_upto(list@.entries, id, list@.entries.len() as int),
                kids.len() <= list@.entries.len(),
                forall|j: int| 0 <= j < kids.len() ==> rank((#[trigger] kids[j]).0) < rank(id.0)
                    && has_key(list@.entries, kids[j].0),
                0 <= i <= kids.len(),
                !kids_protected(list@.entries, id.0, kids, i as int, rank),
            decreases children.len() - i,
        {
            let c = children[i];
            let snap = match list.get(c) {
                Ok(sn) => sn,
                Err(_) => {
                    proof {
                        assert(has_key(list@.entries, kids[i as int].0));
                    }
                    return false;
                },
            };
            proof {
                list.lemma_wf();
                let j = choose|j: int| 0 <= j < list@.entries.len() && (#[trigger] list@.entries[j]).0 == c.0 && snap == list@.entries[j].1;
                lemma_entry_of(list@.entries, j);
            }
            if snap.is_protected() || Self::any_protected_below(list, c) {
                proof {
                    assert(kids_protected(list@.entries, id.0, kids, i + 1, rank));
                    lemma_kids_protected_mono(list@.entries, id.0, kids, i + 1, kids.len() as int, rank);
                }
                return true;
            }
            i += 1;
        }
        false
    }

    /// The descendants of `id` then `id`, children before parents.
    pub fn deletion_order(list: &SnapshotList, id: SnapshotId) -> (r: ExofsResult<Vec<SnapshotId>>)
        requires
            tree_ordered(list@.entries),
        ensures
            r matches Ok(v) && v@ == cascade_order(list@.entries, id.0),
    {
        let mut order: Vec<SnapshotId> = Vec::new();
        Self::collect_order(list, id, &mut order)?;
        Ok(order)
    }

    fn collect_order(list: &SnapshotList, id: SnapshotId, order: &mut Vec<SnapshotId>) -> (r: ExofsResult<()>)
        requires
            tree_ordered(list@.entries),
        ensures
            r is Ok,
            final(order)@ == old(order)@ + cascade_order(list@.entries, id.0),
        decreases rank_of(list@.entries)(id.0),
    {
        let children = match list.children_of(id) {
            Ok(c) => c,
            Err(e) => return Err(e),
        };
        let ghost rank = rank_of(list@.entries);
        proof {
            lemma_children_later(list@.entries, id, list@.entries.len() as int, rank);
        }
        let ghost kids = children@;
        let ghost start = order@;
        let mut i: usize = 0;
        while i < children.len()
            invariant
                tree_ordered(list@.entries),
                rank == rank_of(list@.entries),
                kids == children@,
                kids == children_upto(list@.entries, id, list@.entries.len() as int),
                kids.len() <= list@.entries.len(),
                forall|j: int| 0 <= j < kids.len() ==> rank((#[trigger] kids[j]).0) < rank(id.0),
                0 <= i <= kids.len(),
                order@ == start + kids_order(list@.entries, id.0, kids, i as int, rank),
            decreases children.len() - i,
        {
            let _ = Self::collect_order(list, children[i], order);
            proof {
                assert(order@ =~= start + kids_order(list@.entries, id.0, kids, i + 1, rank));
            }
            i += 1;
        }
        order.push(id);
        proof {
            assert(order@ =~= start + order_of(list@.entries, id.0, rank));
        }
        Ok(())
    }
}

} // verus!
