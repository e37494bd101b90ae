//! Differences between two snapshots: their blob lists are sorted by
//! identifier and merged, giving the blobs added, removed and unchanged.
use vstd::prelude::*;
use crate::types::{BlobId, ExofsError, ExofsResult, SnapshotId};
use crate::snapshot::snapshot::{ref_of, SnapshotRef};
use crate::snapshot::snapshot_list::{first_of, has_key, SnapshotList};

verus! {

/// Kind of a difference.
#[derive(Clone, Copy, Debug, PartialEq, Eq, Structural)]
pub enum DiffKind {
    /// Only on the right.
    Added,
    /// Only on the left.
    Removed,
    /// On both sides with other data.
    Modified,
    /// The same on both sides.
    Unchanged,
}

/// One difference.
#[derive(Clone, Copy, Debug)]
pub struct DiffEntry {
    pub blob_left: Option<BlobId>,
    pub blob_right: Option<BlobId>,
    pub kind: DiffKind,
    pub size_left: u64,
    pub size_right: u64,
}

/// Options of a comparison.
#[derive(Clone, Copy, Debug)]
pub struct DiffOptions {
    /// Report unchanged blobs too.
    pub include_unchanged: bool,
    /// Most entries reported (0: no limit).
    pub max_entries: usize,
}

impl Default for DiffOptions {
    fn default() -> (r: DiffOptions)
        ensures
            r == (DiffOptions { include_unchanged: false, max_entries: 0 }),
    {
        DiffOptions { include_unchanged: false, max_entries: 0 }
    }
}

/// Result of a comparison.
#[derive(Clone, Debug)]
pub struct SnapshotDiffReport {
    pub left: SnapshotRef,
    pub right: SnapshotRef,
    pub entries: Vec<DiffEntry>,
    pub n_added: u64,
    pub n_removed: u64,
    pub n_modified: u64,
    pub n_unchanged: u64,
    pub bytes_added: u64,
    pub bytes_removed: u64,
    /// The entries were cut at `max_entries`.
    pub truncated: bool,
}

/// The counters of a comparison.
#[derive(Clone, Copy, Debug)]
pub struct DiffSummary {
    pub n_added: u64,
    pub n_removed: u64,
    pub n_modified: u64,
    pub n_unchanged: u64,
    pub bytes_added: u64,
    pub bytes_removed: u64,
}

impl SnapshotDiffReport {
    /// The counters.
    pub fn summary(&self) -> (r: DiffSummary)
        ensures
            r == (DiffSummary {
                n_added: self.n_added,
                n_removed: self.n_removed,
                n_modified: self.n_modified,
                n_unchanged: self.n_unchanged,
                bytes_added: self.bytes_added,
                bytes_removed: self.bytes_removed,
            }),
    {
        DiffSummary {
            n_added: self.n_added,
            n_removed: self.n_removed,
            n_modified: self.n_modified,
            n_unchanged: self.n_unchanged,
            bytes_added: self.bytes_added,
            bytes_removed: self.bytes_removed,
        }
    }

    /// True iff a blob was added, removed or modified.
    pub fn has_changes(&self) -> (r: bool)
        ensures
            r == (self.n_added > 0 || self.n_removed > 0 || self.n_modified > 0),
    {
        self.n_added > 0 || self.n_removed > 0 || self.n_modified > 0
    }
}

/// The blobs of a snapshot with their sizes, as the user of the comparison
/// provides them.
pub trait SnapshotBlobEnumerator {
    /// What the enumerator lists for `snap_id`: its blobs with their sizes,
    /// or the error it answers. An implementation states it; one that does
    /// not leaves it unknown.
    closed spec fn listed(&self, snap_id: SnapshotId) -> ExofsResult<Seq<(BlobId, u64)>> {
        arbitrary()
    }

    fn list_blobs_with_sizes(&self, snap_id: SnapshotId) -> (r: ExofsResult<Vec<(BlobId, u64)>>)
        ensures
            match self.listed(snap_id) {
                Ok(l) => r matches Ok(v) && v@ == l,
                Err(e) => r == Err::<Vec<(BlobId, u64)>, ExofsError>(e),
            },
    ;
}

/// An enumerator that knows only the registry: the root of a snapshot as its
/// single blob, of size 0.
pub struct MetaOnlyEnumerator<'a> {
    pub list: &'a SnapshotList,
}

impl<'a> SnapshotBlobEnumerator for MetaOnlyEnumerator<'a> {
    open spec fn listed(&self, snap_id: SnapshotId) -> ExofsResult<Seq<(BlobId, u64)>> {
        if has_key(self.list@.entries, snap_id.0) {
            Ok(seq![(self.list@.entries[first_of(self.list@.entries, snap_id.0)].1.root_blob, 0u64)])
        } else {
            Err(ExofsError::NotFound)
        }
    }

    fn list_blobs_with_sizes(&self, snap_id: SnapshotId) -> (r: ExofsResult<Vec<(BlobId, u64)>>)
        ensures
            !has_key(self.list@.entries, snap_id.0) ==> r == Err::<Vec<(BlobId, u64)>, ExofsError>(ExofsError::NotFound),
            r matches Ok(v) ==> exists|i: int| 0 <= i < self.list@.entries.len() && (#[trigger] self.list@.entries[i]).0 == snap_id.0
                && v@ == seq![(self.list@.entries[i].1.root_blob, 0u64)],
            has_key(self.list@.entries, snap_id.0) ==> r is Ok,
    {
        let snap = match self.list.get(snap_id) {
            Ok(s) => s,
            Err(e) => return Err(e),
        };
        let mut out: Vec<(BlobId, u64)> = Vec::new();
        out.push((snap.root_blob, 0));
        proof {
            assert(out@ =~= seq![(snap.root_blob, 0u64)]);
        }
        Ok(out)
    }
}

/// Order of two identifiers, byte by byte.
#[derive(Clone, Copy, Debug, PartialEq, Eq, Structural)]
pub enum IdOrder {
    Less,
    Equal,
    Greater,
}

/// Order of `a` and `b` from byte `i` on.
pub open spec fn id_order_from(a: Seq<u8>, b: Seq<u8>, i: int) -> IdOrder
    decreases 32 - i,
{
    if i >= 32 || i < 0 {
        IdOrder::Equal
    } else if a[i] < b[i] {
        IdOrder::Less
    } else if a[i] > b[i] {
        IdOrder::Greater
    } else {
        id_order_from(a, b, i + 1)
    }
}

/// Byte-wise order of two identifiers.
pub open spec fn id_order(a: BlobId, b: BlobId) -> IdOrder {
    id_order_from(a.0@, b.0@, 0)
}

/// Compares two identifiers byte by byte.
pub fn compare_ids(a: &BlobId, b: &BlobId) -> (r: IdOrder)
    ensures
        r == id_order(*a, *b),
{
    let mut i: usize = 0;
    while i < 32
        invariant
            0 <= i <= 32,
            id_order(*a, *b) == id_order_from(a.0@, b.0@, i as int),
        decreases 32 - i,
    {
        if a.0[i] < b.0[i] {
            return IdOrder::Less;
        }
        if a.0[i] > b.0[i] {
            return IdOrder::Greater;
        }
        i += 1;
    }
    IdOrder::Equal
}

/// Index of the first element of `r` from `j` on whose identifier comes after `k`.
pub open spec fn first_after(r: Seq<(BlobId, u64)>, k: BlobId, j: int) -> int
    decreases r.len() - j,
{
    if j >= r.len() || j < 0 {
        r.len() as int
    } else if id_order(r[j].0, k) == IdOrder::Greater {
        j
    } else {
        first_after(r, k, j + 1)
    }
}

/// The list sorted by identifier, stably: each element goes after the ones
/// before it that do not come after it.
pub open spec fn sort_blobs_spec(s: Seq<(BlobId, u64)>) -> Seq<(BlobId, u64)>
    decreases s.len(),
{
    if s.len() == 0 {
        s
    } else {
        let r = sort_blobs_spec(s.drop_last());
        r.insert(first_after(r, s.last().0, 0), s.last())
    }
}

proof fn lemma_sort_len(s: Seq<(BlobId, u64)>)
    ensures
        sort_blobs_spec(s).len() == s.len(),
        0 <= first_after(sort_blobs_spec(s), s.last().0, 0) <= sort_blobs_spec(s).len(),
    decreases s.len(),
{
    if s.len() > 0 {
        lemma_sort_len(s.drop_last());
        lemma_first_after_range(sort_blobs_spec(s.drop_last()), s.last().0, 0);
    }
    lemma_first_after_range(sort_blobs_spec(s), s.last().0, 0);
}

proof fn lemma_first_after_range(r: Seq<(BlobId, u64)>, k: BlobId, j: int)
    requires
        0 <= j,
    ensures
        j <= r.len() ==> j <= first_after(r, k, j) <= r.len(),
        j > r.len() ==> first_after(r, k, j) == r.len(),
    decreases r.len() - j,
{
    if j < r.len() {
        lemma_first_after_range(r, k, j + 1);
    }
}

/// Sorts `v` by identifier, stably.
fn sort_blobs(v: Vec<(BlobId, u64)>) -> (r: Vec<(BlobId, u64)>)
    ensures
        r@ == sort_blobs_spec(v@),
{
    let mut out: Vec<(BlobId, u64)> = Vec::new();
    let mut k: usize = 0;
    while k < v.len()
        invariant
            0 <= k <= v@.len(),
            out@ == sort_blobs_spec(v@.take(k as int)),
        decreases v.len() - k,
    {
        let x = v[k];
        let mut j: usize = 0;
        proof {
            lemma_sort_len(v@.take(k as int));
        }
        while j < out.len() && compare_ids(&out[j].0, &x.0) != IdOrder::Greater
            invariant
                0 <= j <= out@.len(),
                first_after(out@, x.0, 0) == first_after(out@, x.0, j as int),
            decreases out.len() - j,
        {
            j += 1;
        }
        proof {
            assert(v@.take(k + 1).drop_last() =~= v@.take(k as int));
            assert(v@.take(k + 1).last() == x);
            lemma_first_after_range(out@, x.0, j as int);
        }
        out.insert(j, x);
        k += 1;
    }
    proof {
        assert(v@.take(k as int) =~= v@);
    }
    out
}

/// State of the merge of two sorted lists.
pub struct MergeState {
    pub li: int,
    pub ri: int,
    pub entries: Seq<DiffEntry>,
    pub n_added: u64,
    pub n_removed: u64,
    pub n_unchanged: u64,
    pub bytes_added: u64,
    pub bytes_removed: u64,
    pub truncated: bool,
}

/// The entry of a blob only on the right.
pub open spec fn added_entry(b: BlobId, size: u64) -> DiffEntry {
    DiffEntry { blob_left: None, blob_right: Some(b), kind: DiffKind::Added, size_left: 0, size_right: size }
}

/// The entry of a blob only on the left.
pub open spec fn removed_entry(b: BlobId, size: u64) -> DiffEntry {
    DiffEntry { blob_left: Some(b), blob_right: None, kind: DiffKind::Removed, size_left: size, size_right: 0 }
}

/// The entry of a blob on both sides.
pub open spec fn unchanged_entry(b: BlobId, size: u64) -> DiffEntry {
    DiffEntry { blob_left: Some(b), blob_right: Some(b), kind: DiffKind::Unchanged, size_left: size, size_right: size }
}

/// The merge from state `st` on: at each step the smaller identifier is
/// taken (both when equal), an entry recorded, the counters raised with
/// overflow checks; it stops when both lists are done or the entries reach
/// the limit.
pub open spec fn merge_from(l: Seq<(BlobId, u64)>, r: Seq<(BlobId, u64)>, o: DiffOptions, st: MergeState) -> ExofsResult<MergeState>
    decreases l.len() - st.li, r.len() - st.ri,
{
    if st.li < 0 || st.ri < 0 || !(st.li < l.len() || st.ri < r.len()) {
        Ok(st)
    } else if o.max_entries > 0 && st.entries.len() >= o.max_entries {
        Ok(MergeState { truncated: true, ..st })
    } else if st.li < l.len() && (st.ri >= r.len() || id_order(l[st.li].0, r[st.ri].0) == IdOrder::Less) {
        let x = l[st.li];
        if st.n_removed + 1 > u64::MAX || st.bytes_removed + x.1 > u64::MAX {
            Err(ExofsError::Overflow)
        } else {
            merge_from(l, r, o, MergeState {
                li: st.li + 1,
                entries: st.entries.push(removed_entry(x.0, x.1)),
                n_removed: (st.n_removed + 1) as u64,
                bytes_removed: (st.bytes_removed + x.1) as u64,
                ..st
            })
        }
    } else if st.li < l.len() && st.ri < r.len() && id_order(l[st.li].0, r[st.ri].0) == IdOrder::Equal {
        let x = l[st.li];
        if st.n_unchanged + 1 > u64::MAX {
            Err(ExofsError::Overflow)
        } else {
            merge_from(l, r, o, MergeState {
                li: st.li + 1,
                ri: st.ri + 1,
                entries: if o.include_unchanged { st.entries.push(unchanged_entry(x.0, x.1)) } else { st.entries },
                n_unchanged: (st.n_unchanged + 1) as u64,
                ..st
            })
        }
    } else if st.ri < r.len() {
        let y = r[st.ri];
        if st.n_added + 1 > u64::MAX || st.bytes_added + y.1 > u64::MAX {
            Err(ExofsError::Overflow)
        } else {
            merge_from(l, r, o, MergeState {
                ri: st.ri + 1,
                entries: st.entries.push(added_entry(y.0, y.1)),
                n_added: (st.n_added + 1) as u64,
                bytes_added: (st.bytes_added + y.1) as u64,
                ..st
            })
        }
    } else {
        Ok(st)
    }
}

/// The state before the merge.
pub open spec fn merge_start() -> MergeState {
    MergeState {
        li: 0,
        ri: 0,
        entries: Seq::empty(),
        n_added: 0,
        n_removed: 0,
        n_unchanged: 0,
        bytes_added: 0,
        bytes_removed: 0,
        truncated: false,
    }
}

/// The report holds the outcome of the merge.
pub open spec fn report_of(rep: SnapshotDiffReport, left: SnapshotRef, right: SnapshotRef, st: MergeState) -> bool {
    &&& rep.left == left
    &&& rep.right == right
    &&& rep.entries@ == st.entries
    &&& rep.n_added == st.n_added
    &&& rep.n_removed == st.n_removed
    &&& rep.n_modified == 0
    &&& rep.n_unchanged == st.n_unchanged
    &&& rep.bytes_added == st.bytes_added
    &&& rep.bytes_removed == st.bytes_removed
    &&& rep.truncated == st.truncated
}

/// `rep` is the merge of the blob lists `lb` and `rb` once sorted by identifier.
pub open spec fn diff_of(lb: Seq<(BlobId, u64)>, rb: Seq<(BlobId, u64)>, opts: DiffOptions, rep: SnapshotDiffReport) -> bool {
    merge_from(sort_blobs_spec(lb), sort_blobs_spec(rb), opts, merge_start()) matches Ok(st)
        && report_of(rep, rep.left, rep.right, st)
}

/// Comparer of snapshots.
pub struct SnapshotDiff;

impl SnapshotDiff {
    /// Compares the snapshots `left_id` and `right_id` of `list`: their blob
    /// lists, from `enumerator`, are sorted by identifier and merged.
    pub fn compare<E: SnapshotBlobEnumerator>(
        list: &SnapshotList,
        left_id: SnapshotId,
        right_id: SnapshotId,
        enumerator: &E,
        opts: DiffOptions,
    ) -> (r: ExofsResult<SnapshotDiffReport>)
        requires
            list.wf(),
        ensures
            !has_key(list@.entries, left_id.0) ==> r == Err::<SnapshotDiffReport, ExofsError>(ExofsError::NotFound),
            has_key(list@.entries, left_id.0) && !has_key(list@.entries, right_id.0)
                ==> r == Err::<SnapshotDiffReport, ExofsError>(ExofsError::NotFound),
            forall|i: int, j: int| 0 <= i < list@.entries.len() && 0 <= j < list@.entries.len()
                && (#[trigger] list@.entries[i]).0 == left_id.0 && (#[trigger] list@.entries[j]).0 == right_id.0 ==> {
                r matches Ok(rep) ==> rep.left == ref_of(list@.entries[i].1) && rep.right == ref_of(list@.entries[j].1)
            },
            r matches Ok(rep) ==> exists|lb: Seq<(BlobId, u64)>, rb: Seq<(BlobId, u64)>| #[trigger] diff_of(lb, rb, opts, rep),
            has_key(list@.entries, left_id.0) && has_key(list@.entries, right_id.0) ==> match enumerator.listed(left_id) {
                Err(e) => r == Err::<SnapshotDiffReport, ExofsError>(e),
                Ok(lb) => match enumerator.listed(right_id) {
                    Err(e) => r == Err::<SnapshotDiffReport, ExofsError>(e),
                    Ok(rb) => match merge_from(sort_blobs_spec(lb), sort_blobs_spec(rb), opts, merge_start()) {
                        Err(e) => r == Err::<SnapshotDiffReport, ExofsError>(e),
                        Ok(st) => r matches Ok(rep) && report_of(rep, rep.left, rep.right, st),
                    },
                },
            },
    {
        proof {
            list.lemma_wf();
            crate::snapshot::snapshot_list::lemma_unique_key(list@.entries, left_id.0);
            crate::snapshot::snapshot_list::lemma_unique_key(list@.entries, right_id.0);
        }
        let left_ref = match list.get_ref(left_id) {
            Ok(x) => x,
            Err(e) => return Err(e),
        };
        let right_ref = match list.get_ref(right_id) {
            Ok(x) => x,
            Err(e) => return Err(e),
        };
        let left_raw = match enumerator.list_blobs_with_sizes(left_id) {
            Ok(v) => v,
            Err(e) => return Err(e),
        };
        let right_raw = match enumerator.list_blobs_with_sizes(right_id) {
            Ok(v) => v,
            Err(e) => return Err(e),
        };
        let ghost lb = left_raw@;
        let ghost rb = right_raw@;
        let left_blobs = sort_blobs(left_raw);
        let right_blobs = sort_blobs(right_raw);
        let r = Self::merge_diff(left_ref, right_ref, left_blobs.as_slice(), right_blobs.as_slice(), opts);
        proof {
            if r is Ok {
                assert(diff_of(lb, rb, opts, r->Ok_0));
            }
        }
        r
    }

    /// The differences between two lists already sorted by identifier.
    pub fn diff_sorted(
        left_ref: SnapshotRef,
        right_ref: SnapshotRef,
        left_blobs: &[(BlobId, u64)],
        right_blobs: &[(BlobId, u64)],
        opts: DiffOptions,
    ) -> (r: ExofsResult<SnapshotDiffReport>)
        ensures
            merge_from(left_blobs@, right_blobs@, opts, merge_start()) matches Err(e) ==> r == Err::<SnapshotDiffReport, ExofsError>(e),
            merge_from(left_blobs@, right_blobs@, opts, merge_start()) matches Ok(st) ==> (r matches Ok(rep)
                && report_of(rep, left_ref, right_ref, st)),
    {
        Self::merge_diff(left_ref, right_ref, left_blobs, right_blobs, opts)
    }

    fn merge_diff(
        left_ref: SnapshotRef,
        right_ref: SnapshotRef,
        left_blobs: &[(BlobId, u64)],
        right_blobs: &[(BlobId, u64)],
        opts: DiffOptions,
    ) -> (r: ExofsResult<SnapshotDiffReport>)
        ensures
            merge_from(left_blobs@, right_blobs@, opts, merge_start()) matches Err(e) ==> r == Err::<SnapshotDiffReport, ExofsError>(e),
            merge_from(left_blobs@, right_blobs@, opts, merge_start()) matches Ok(st) ==> (r matches Ok(rep)
                && report_of(rep, left_ref, right_ref, st)),
    {
        let ghost l = left_blobs@;
        let ghost rr = right_blobs@;
        let mut entries: Vec<DiffEntry> = Vec::new();
        let mut n_added: u64 = 0;
        let mut n_removed: u64 = 0;
        let mut n_unchanged: u64 = 0;
        let mut bytes_added: u64 = 0;
        let mut bytes_removed: u64 = 0;
        let mut li: usize = 0;
        let mut ri: usize = 0;
        let mut truncated = false;
        let ghost goal = merge_from(l, rr, opts, merge_start());
        while (li < left_blobs.len() || ri < right_blobs.len()) && !truncated
            invariant
                l == left_blobs@,
                rr == right_blobs@,
                goal == merge_from(left_blobs@, right_blobs@, opts, merge_start()),
                li <= l.len(),
                ri <= rr.len(),
                goal == merge_from(l, rr, opts, MergeState {
                    li: li as int,
                    ri: ri as int,
                    entries: entries@,
                    n_added,
                    n_removed,
                    n_unchanged,
                    bytes_added,
                    bytes_removed,
                    truncated,
                }),
                truncated ==> goal == Ok::<MergeState, ExofsError>(MergeState {
                    li: li as int,
                    ri: ri as int,
                    entries: entries@,
                    n_added,
                    n_removed,
                    n_unchanged,
                    bytes_added,
                    bytes_removed,
                    truncated,
                }),
            decreases (l.len() - li) + (rr.len() - ri) + (if truncated { 0int } else { 1int }),
        {
            if opts.max_entries > 0 && entries.len() >= opts.max_entries {
                truncated = true;
            } else {
                let take_left = li < left_blobs.len() && (ri >= right_blobs.len() || compare_ids(&left_blobs[li].0, &right_blobs[ri].0)
                    == IdOrder::Less);
                if take_left {
                    let x = left_blobs[li];
                    let (nr, br) = match (n_removed.checked_add(1), bytes_removed.checked_add(x.1)) {
                        (Some(a), Some(b)) => (a, b),
                        _ => return Err(ExofsError::Overflow),
                    };
                    n_removed = nr;
                    bytes_removed = br;
                    entries.push(DiffEntry { blob_left: Some(x.0), blob_right: None, kind: DiffKind::Removed, size_left: x.1, size_right: 0 });
                    li += 1;
                } else if li < left_blobs.len() && compare_ids(&left_blobs[li].0, &right_blobs[ri].0) == IdOrder::Equal {
                    let x = left_blobs[li];
                    n_unchanged = match n_unchanged.checked_add(1) {
                        Some(n) => n,
                        None => return Err(ExofsError::Overflow),
                    };
                    if opts.include_unchanged {
                        entries.push(DiffEntry { blob_left: Some(x.0), blob_right: Some(x.0), kind: DiffKind::Unchanged, size_left: x.1, size_right: x.1 });
                    }
                    li += 1;
                    ri += 1;
                } else {
                    let y = right_blobs[ri];
                    let (na, ba) = match (n_added.checked_add(1), bytes_added.checked_add(y.1)) {
                        (Some(a), Some(b)) => (a, b),
                        _ => return Err(ExofsError::Overflow),
                    };
                    n_added = na;
                    bytes_added = ba;
                    entries.push(DiffEntry { blob_left: None, blob_right: Some(y.0), kind: DiffKind::Added, size_left: 0, size_right: y.1 });
                    ri += 1;
                }
            }
        }
        Ok(SnapshotDiffReport {
            left: left_ref,
            right: right_ref,
            entries,
            n_added,
            n_removed,
            n_modified: 0,
            n_unchanged,
            bytes_added,
            bytes_removed,
            truncated,
        })
    }

    /// True iff both snapshots have the same root.
    pub fn is_identical(list: &SnapshotList, left_id: SnapshotId, right_id: SnapshotId) -> (r: ExofsResult<bool>)
        requires
            list.wf(),
        ensures
            !has_key(list@.entries, left_id.0) ==> r == Err::<bool, ExofsError>(ExofsError::NotFound),
            has_key(list@.entries, left_id.0) && !has_key(list@.entries, right_id.0) ==> r == Err::<bool, ExofsError>(ExofsError::NotFound),
            forall|i: int, j: int| 0 <= i < list@.entries.len() && 0 <= j < list@.entries.len()
                && (#[trigger] list@.entries[i]).0 == left_id.0 && (#[trigger] list@.entries[j]).0 == right_id.0
                ==> r == Ok::<bool, ExofsError>(list@.entries[i].1.root_blob.0@ == list@.entries[j].1.root_blob.0@),
    {
        proof {
            list.lemma_wf();
        }
        let l = list.get(left_id)?;
        let r = list.get(right_id)?;
        proof {
            crate::snapshot::snapshot_list::lemma_unique_key(list@.entries, left_id.0);
            crate::snapshot::snapshot_list::lemma_unique_key(list@.entries, right_id.0);
        }
        Ok(l.root_blob.ct_eq(&r.root_blob))
    }

    /// The blobs of `only_in_id` that `other_id` does not have, by identifier.
    pub fn blobs_only_in<E: SnapshotBlobEnumerator>(
        only_in_id: SnapshotId,
        other_id: SnapshotId,
        enumerator: &E,
    ) -> (r: ExofsResult<Vec<BlobId>>)
        ensures
            r matches Ok(v) ==> exists|lb: Seq<(BlobId, u64)>, rb: Seq<(BlobId, u64)>| #[trigger] only_of(lb, rb, v@),
            match enumerator.listed(only_in_id) {
                Err(e) => r == Err::<Vec<BlobId>, ExofsError>(e),
                Ok(lb) => match enumerator.listed(other_id) {
                    Err(e) => r == Err::<Vec<BlobId>, ExofsError>(e),
                    Ok(rb) => r matches Ok(v) && only_of(lb, rb, v@),
                },
            },
    {
        let left_raw = match enumerator.list_blobs_with_sizes(only_in_id) {
            Ok(v) => v,
            Err(e) => return Err(e),
        };
        let right_raw = match enumerator.list_blobs_with_sizes(other_id) {
            Ok(v) => v,
            Err(e) => return Err(e),
        };
        let ghost lb = left_raw@;
        let ghost rb = right_raw@;
        let left = sort_blobs(left_raw);
        let right = sort_blobs(right_raw);
        let out = only_in_sorted(left.as_slice(), right.as_slice());
        let r = Ok(out);
        proof {
            assert(only_of(lb, rb, r->Ok_0@));
        }
        r
    }
}

/// `ids` are the identifiers of the blob list `lb` missing from `rb`, both
/// sorted by identifier first.
pub open spec fn only_of(lb: Seq<(BlobId, u64)>, rb: Seq<(BlobId, u64)>, ids: Seq<BlobId>) -> bool {
    ids == only_from(sort_blobs_spec(lb), sort_blobs_spec(rb), 0, 0)
}

/// The identifiers of `l` from `li` on that the walk along `r` from `ri`
/// does not meet.
pub open spec fn only_from(l: Seq<(BlobId, u64)>, r: Seq<(BlobId, u64)>, li: int, ri: int) -> Seq<BlobId>
    decreases l.len() - li, r.len() - ri,
{
    if li < 0 || ri < 0 || li >= l.len() {
        Seq::empty()
    } else if ri >= r.len() {
        seq![l[li].0] + only_from(l, r, li + 1, ri)
    } else if id_order(l[li].0, r[ri].0) == IdOrder::Less {
        seq![l[li].0] + only_from(l, r, li + 1, ri)
    } else if id_order(l[li].0, r[ri].0) == IdOrder::Equal {
        only_from(l, r, li + 1, ri + 1)
    } else {
        only_from(l, r, li, ri + 1)
    }
}

/// The identifiers of sorted `l` that sorted `r` does not hold.
pub fn only_in_sorted(l: &[(BlobId, u64)], r: &[(BlobId, u64)]) -> (out: Vec<BlobId>)
    ensures
        out@ == only_from(l@, r@, 0, 0),
{
    let mut out: Vec<BlobId> = Vec::new();
    let mut li: usize = 0;
    let mut ri: usize = 0;
    while li < l.len()
        invariant
            li <= l@.len(),
            ri <= r@.len(),
            out@ + only_from(l@, r@, li as int, ri as int) == only_from(l@, r@, 0, 0),
        decreases (l@.len() - li) + (r@.len() - ri),
    {
        if ri < r.len() {
            match compare_ids(&l[li].0, &r[ri].0) {
                IdOrder::Less => {
                    proof {
                        assert(out@.push(l@[li as int].0) + only_from(l@, r@, li + 1, ri as int) =~= out@ + only_from(l@, r@, li as int, ri as int));
                    }
                    out.push(l[li].0);
                    li += 1;
                },
                IdOrder::Equal => {
                    li += 1;
                    ri += 1;
                },
                IdOrder::Greater => {
                    ri += 1;
                },
            }
        } else {
            proof {
                assert(out@.push(l@[li as int].0) + only_from(l@, r@, li + 1, ri as int) =~= out@ + only_from(l@, r@, li as int, ri as int));
            }
            out.push(l[li].0);
            li += 1;
        }
    }
    proof {
        assert(out@ + only_from(l@, r@, li as int, ri as int) =~= out@);
    }
    out
}

/// Every identifier compares equal to itself.
proof fn lemma_id_order_refl(a: Seq<u8>, i: int)
    ensures
        id_order_from(a, a, i) == IdOrder::Equal,
    decreases 32 - i,
{
    if !(i >= 32 || i < 0) {
        lemma_id_order_refl(a, i + 1);
    }
}

/// The walk of a sorted list along itself from the same place meets every
/// identifier.
proof fn lemma_only_from_self(l: Seq<(BlobId, u64)>, i: int)
    requires
        0 <= i,
    ensures
        only_from(l, l, i, i) == Seq::<BlobId>::empty(),
    decreases l.len() - i,
{
    if i < l.len() {
        lemma_id_order_refl(l[i].0.0@, 0);
        lemma_only_from_self(l, i + 1);
    }
}

/// No blob of a list is missing from the same list: the blobs of a snapshot
/// that are only in it, compared with a snapshot that lists the same blobs,
/// are none.
pub proof fn lemma_only_in_same_list(lb: Seq<(BlobId, u64)>)
    ensures
        only_of(lb, lb, Seq::empty()),
{
    lemma_only_from_self(sort_blobs_spec(lb), 0);
}

/// Each identifier the walk gives from `li` on is one of `l` at `li` or
/// later.
proof fn lemma_only_from_in_left(l: Seq<(BlobId, u64)>, r: Seq<(BlobId, u64)>, li: int, ri: int)
    requires
        0 <= li,
        0 <= ri,
    ensures
        forall|k: int| #![trigger only_from(l, r, li, ri)[k]] 0 <= k < only_from(l, r, li, ri).len()
            ==> exists|j: int| li <= j < l.len() && (#[trigger] l[j]).0 == only_from(l, r, li, ri)[k],
    decreases l.len() - li, r.len() - ri,
{
    if li < l.len() {
        if ri >= r.len() || id_order(l[li].0, r[ri].0) == IdOrder::Less {
            lemma_only_from_in_left(l, r, li + 1, ri);
            let rest = only_from(l, r, li + 1, ri);
            assert forall|k: int| #![trigger only_from(l, r, li, ri)[k]] 0 <= k < only_from(l, r, li, ri).len()
                implies exists|j: int| li <= j < l.len() && (#[trigger] l[j]).0 == only_from(l, r, li, ri)[k] by {
                if k == 0 {
                    assert(l[li].0 == only_from(l, r, li, ri)[k]);
                } else {
                    assert(only_from(l, r, li, ri)[k] == rest[k - 1]);
                }
            }
        } else if id_order(l[li].0, r[ri].0) == IdOrder::Equal {
            lemma_only_from_in_left(l, r, li + 1, ri + 1);
            assert(only_from(l, r, li, ri) == only_from(l, r, li + 1, ri + 1));
            assert forall|k: int| #![trigger only_from(l, r, li, ri)[k]] 0 <= k < only_from(l, r, li, ri).len()
                implies exists|j: int| li <= j < l.len() && (#[trigger] l[j]).0 == only_from(l, r, li, ri)[k] by {
                assert(only_from(l, r, li, ri)[k] == only_from(l, r, li + 1, ri + 1)[k]);
            }
        } else {
            lemma_only_from_in_left(l, r, li, ri + 1);
            assert(only_from(l, r, li, ri) == only_from(l, r, li, ri + 1));
        }
    }
}

/// Every blob found only in one snapshot is one of the blobs listed for it.
pub proof fn lemma_only_in_listed(lb: Seq<(BlobId, u64)>, rb: Seq<(BlobId, u64)>, ids: Seq<BlobId>)
    requires
        only_of(lb, rb, ids),
    ensures
        forall|k: int| #![trigger ids[k]] 0 <= k < ids.len() ==> exists|j: int| 0 <= j < sort_blobs_spec(lb).len()
            && (#[trigger] sort_blobs_spec(lb)[j]).0 == ids[k],
{
    lemma_only_from_in_left(sort_blobs_spec(lb), sort_blobs_spec(rb), 0, 0);
}

/// Every entry of a merge state is an addition or a removal, or an unchanged
/// blob when those are asked for, and the entries are exactly as many as the
/// counters say.
proof fn lemma_merge_entries_counted(l: Seq<(BlobId, u64)>, r: Seq<(BlobId, u64)>, o: DiffOptions, st: MergeState)
    requires
        st.entries.len() == st.n_added + st.n_removed + (if o.include_unchanged { st.n_unchanged as int } else { 0int }),
        forall|k: int| 0 <= k < st.entries.len() ==> (#[trigger] st.entries[k]).kind == DiffKind::Added
            || st.entries[k].kind == DiffKind::Removed || (o.include_unchanged && st.entries[k].kind == DiffKind::Unchanged),
    ensures
        merge_from(l, r, o, st) matches Ok(s2) ==> {
            &&& s2.entries.len() == s2.n_added + s2.n_removed + (if o.include_unchanged { s2.n_unchanged as int } else { 0int })
            &&& forall|k: int| 0 <= k < s2.entries.len() ==> (#[trigger] s2.entries[k]).kind == DiffKind::Added
                || s2.entries[k].kind == DiffKind::Removed || (o.include_unchanged && s2.entries[k].kind == DiffKind::Unchanged)
        },
    decreases l.len() - st.li, r.len() - st.ri,
{
    if st.li < 0 || st.ri < 0 || !(st.li < l.len() || st.ri < r.len()) {
    } else if o.max_entries > 0 && st.entries.len() >= o.max_entries {
    } else if st.li < l.len() && (st.ri >= r.len() || id_order(l[st.li].0, r[st.ri].0) == IdOrder::Less) {
        let x = l[st.li];
        if !(st.n_removed + 1 > u64::MAX || st.bytes_removed + x.1 > u64::MAX) {
            lemma_merge_entries_counted(l, r, o, MergeState {
                li: st.li + 1,
                entries: st.entries.push(removed_entry(x.0, x.1)),
                n_removed: (st.n_removed + 1) as u64,
                bytes_removed: (st.bytes_removed + x.1) as u64,
                ..st
            });
        }
    } else if st.li < l.len() && st.ri < r.len() && id_order(l[st.li].0, r[st.ri].0) == IdOrder::Equal {
        let x = l[st.li];
        if !(st.n_unchanged + 1 > u64::MAX) {
            let next_entries = if o.include_unchanged { st.entries.push(unchanged_entry(x.0, x.1)) } else { st.entries };
            lemma_merge_entries_counted(l, r, o, MergeState {
                li: st.li + 1,
                ri: st.ri + 1,
                entries: next_entries,
                n_unchanged: (st.n_unchanged + 1) as u64,
                ..st
            });
        }
    } else if st.ri < r.len() {
        let y = r[st.ri];
        if !(st.n_added + 1 > u64::MAX || st.bytes_added + y.1 > u64::MAX) {
            lemma_merge_entries_counted(l, r, o, MergeState {
                ri: st.ri + 1,
                entries: st.entries.push(added_entry(y.0, y.1)),
                n_added: (st.n_added + 1) as u64,
                bytes_added: (st.bytes_added + y.1) as u64,
                ..st
            });
        }
    }
}

/// A difference report lists one entry per blob added or removed, and one
/// per blob found on both sides only when unchanged blobs are asked for:
/// without `include_unchanged`, every entry is an addition or a removal and
/// there are `n_added + n_removed` of them, the shared blobs being only
/// counted in `n_unchanged`.
pub proof fn lemma_diff_entries_match_counts(lb: Seq<(BlobId, u64)>, rb: Seq<(BlobId, u64)>, opts: DiffOptions, rep: SnapshotDiffReport)
    requires
        diff_of(lb, rb, opts, rep),
    ensures
        rep.entries@.len() == rep.n_added + rep.n_removed + (if opts.include_unchanged { rep.n_unchanged as int } else { 0int }),
        !opts.include_unchanged ==> forall|k: int| 0 <= k < rep.entries@.len() ==> (#[trigger] rep.entries@[k]).kind == DiffKind::Added
            || rep.entries@[k].kind == DiffKind::Removed,
        forall|k: int| 0 <= k < rep.entries@.len() ==> (#[trigger] rep.entries@[k]).kind != DiffKind::Modified,
{
    lemma_merge_entries_counted(sort_blobs_spec(lb), sort_blobs_spec(rb), opts, merge_start());
}

/// The merge consumes each blob of either list once: a removal or a shared
/// blob per left blob, an addition or a shared blob per right blob.
proof fn lemma_merge_consumes_all(l: Seq<(BlobId, u64)>, r: Seq<(BlobId, u64)>, o: DiffOptions, st: MergeState)
    requires
        0 <= st.li <= l.len(),
        0 <= st.ri <= r.len(),
        st.n_removed + st.n_unchanged == st.li,
        st.n_added + st.n_unchanged == st.ri,
    ensures
        merge_from(l, r, o, st) matches Ok(s2) ==> {
            &&& s2.n_removed + s2.n_unchanged == s2.li && s2.n_added + s2.n_unchanged == s2.ri
            &&& !s2.truncated ==> s2.li == l.len() && s2.ri == r.len()
        },
    decreases l.len() - st.li, r.len() - st.ri,
{
    if !(st.li < l.len() || st.ri < r.len()) {
    } else if o.max_entries > 0 && st.entries.len() >= o.max_entries {
    } else if st.li < l.len() && (st.ri >= r.len() || id_order(l[st.li].0, r[st.ri].0) == IdOrder::Less) {
        let x = l[st.li];
        if !(st.n_removed + 1 > u64::MAX || st.bytes_removed + x.1 > u64::MAX) {
            lemma_merge_consumes_all(l, r, o, MergeState {
                li: st.li + 1,
                entries: st.entries.push(removed_entry(x.0, x.1)),
                n_removed: (st.n_removed + 1) as u64,
                bytes_removed: (st.bytes_removed + x.1) as u64,
                ..st
            });
        }
    } else if st.li < l.len() && st.ri < r.len() && id_order(l[st.li].0, r[st.ri].0) == IdOrder::Equal {
        let x = l[st.li];
        if !(st.n_unchanged + 1 > u64::MAX) {
            let next_entries = if o.include_unchanged { st.entries.push(unchanged_entry(x.0, x.1)) } else { st.entries };
            lemma_merge_consumes_all(l, r, o, MergeState {
                li: st.li + 1,
                ri: st.ri + 1,
                entries: next_entries,
                n_unchanged: (st.n_unchanged + 1) as u64,
                ..st
            });
        }
    } else if st.ri < r.len() {
        let y = r[st.ri];
        if !(st.n_added + 1 > u64::MAX || st.bytes_added + y.1 > u64::MAX) {
            lemma_merge_consumes_all(l, r, o, MergeState {
                ri: st.ri + 1,
                entries: st.entries.push(added_entry(y.0, y.1)),
                n_added: (st.n_added + 1) as u64,
                bytes_added: (st.bytes_added + y.1) as u64,
                ..st
            });
        }
    }
}

/// A complete difference report accounts for every blob of both
/// snapshots: each blob of the left one is removed or shared, each blob of
/// the right one added or shared.
pub proof fn lemma_diff_accounts_for_every_blob(lb: Seq<(BlobId, u64)>, rb: Seq<(BlobId, u64)>, opts: DiffOptions, rep: SnapshotDiffReport)
    requires
        diff_of(lb, rb, opts, rep),
        !rep.truncated,
    ensures
        rep.n_removed + rep.n_unchanged == lb.len(),
        rep.n_added + rep.n_unchanged == rb.len(),
{
    lemma_sort_len(lb);
    lemma_sort_len(rb);
    lemma_merge_consumes_all(sort_blobs_spec(lb), sort_blobs_spec(rb), opts, merge_start());
}

} // verus!
