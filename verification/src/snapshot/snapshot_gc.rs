//! Retention of snapshots: deleting by age, by count and by total size,
//! oldest first, never touching protected ones when asked to respect them.
use vstd::prelude::*;
use crate::types::{ExofsError, ExofsResult, SnapshotId};
use crate::snapshot::snapshot::{flags, ref_of, Snapshot, SnapshotRef};
use crate::snapshot::snapshot_list::{has_key, older_upto, SnapshotList, SnapshotListView};
use crate::snapshot::snapshot_delete::{add64, delete_outcome, entries_within, keeps_protected, tree_ordered, DeleteOptions, SnapshotDeleter};

verus! {

/// Retention limits; 0 means no limit.
#[derive(Clone, Copy, Debug)]
pub struct SnapshotRetentionPolicy {
    pub max_count: usize,
    pub max_age_ticks: u64,
    pub max_total_bytes: u64,
    /// Never delete a protected snapshot.
    pub respect_protected: bool,
    /// Delete the descendants too.
    pub cascade: bool,
}

impl Default for SnapshotRetentionPolicy {
    fn default() -> (r: SnapshotRetentionPolicy)
        ensures
            r == (SnapshotRetentionPolicy { max_count: 0, max_age_ticks: 0, max_total_bytes: 0, respect_protected: true, cascade: false }),
    {
        SnapshotRetentionPolicy { max_count: 0, max_age_ticks: 0, max_total_bytes: 0, respect_protected: true, cascade: false }
    }
}

impl SnapshotRetentionPolicy {
    /// The same policy keeping at most `n` snapshots.
    pub fn max_count(self, n: usize) -> (r: SnapshotRetentionPolicy)
        ensures
            r == (SnapshotRetentionPolicy { max_count: n, ..self }),
    {
        SnapshotRetentionPolicy { max_count: n, ..self }
    }

    /// The same policy keeping snapshots at most `ticks` old.
    pub fn max_age(self, ticks: u64) -> (r: SnapshotRetentionPolicy)
        ensures
            r == (SnapshotRetentionPolicy { max_age_ticks: ticks, ..self }),
    {
        SnapshotRetentionPolicy { max_age_ticks: ticks, ..self }
    }

    /// The same policy keeping at most `bytes` in all.
    pub fn max_bytes(self, bytes: u64) -> (r: SnapshotRetentionPolicy)
        ensures
            r == (SnapshotRetentionPolicy { max_total_bytes: bytes, ..self }),
    {
        SnapshotRetentionPolicy { max_total_bytes: bytes, ..self }
    }

    /// True iff no limit is set.
    pub fn is_unlimited(&self) -> (r: bool)
        ensures
            r == (self.max_count == 0 && self.max_age_ticks == 0 && self.max_total_bytes == 0),
    {
        self.max_count == 0 && self.max_age_ticks == 0 && self.max_total_bytes == 0
    }
}

/// What a collection did.
#[derive(Clone, Debug)]
pub struct SnapshotGcReport {
    pub n_deleted: u32,
    pub bytes_freed: u64,
    pub deleted_ids: Vec<SnapshotId>,
    /// Snapshots left alone (protected, or whose deletion failed).
    pub n_skipped: u32,
    pub n_errors: u32,
    pub duration_ticks: u64,
    pub policy: SnapshotRetentionPolicy,
    pub remaining_count: usize,
}

impl SnapshotGcReport {
    fn new(policy: SnapshotRetentionPolicy) -> (r: SnapshotGcReport)
        ensures
            r.n_deleted == 0 && r.bytes_freed == 0 && r.deleted_ids@.len() == 0 && r.n_skipped == 0 && r.n_errors == 0,
            r.duration_ticks == 0 && r.policy == policy && r.remaining_count == 0,
    {
        SnapshotGcReport {
            n_deleted: 0,
            bytes_freed: 0,
            deleted_ids: Vec::new(),
            n_skipped: 0,
            n_errors: 0,
            duration_ticks: 0,
            policy,
            remaining_count: 0,
        }
    }
}

/// Why a snapshot is a candidate.
#[derive(Clone, Copy, Debug, PartialEq, Eq, Structural)]
pub enum GcReason {
    AgeExceeded,
    CountExceeded,
    QuotaExceeded,
}

/// A snapshot the policy would delete.
#[derive(Clone, Copy, Debug)]
pub struct GcCandidate {
    pub id: SnapshotId,
    pub created_at: u64,
    pub total_bytes: u64,
    pub reason: GcReason,
}

/// Index of the first element of `r` from `j` on created after `t`.
pub open spec fn first_later(r: Seq<SnapshotRef>, t: u64, j: int) -> int
    decreases r.len() - j,
{
    if j >= r.len() || j < 0 {
        r.len() as int
    } else if r[j].created_at > t {
        j
    } else {
        first_later(r, t, j + 1)
    }
}

/// The metadata sorted by creation time, stably (oldest first).
pub open spec fn by_age_spec(s: Seq<SnapshotRef>) -> Seq<SnapshotRef>
    decreases s.len(),
{
    if s.len() == 0 {
        s
    } else {
        let r = by_age_spec(s.drop_last());
        r.insert(first_later(r, s.last().created_at, 0), s.last())
    }
}

proof fn lemma_first_later_range(r: Seq<SnapshotRef>, t: u64, j: int)
    requires
        0 <= j,
    ensures
        j <= r.len() ==> j <= first_later(r, t, j) <= r.len(),
    decreases r.len() - j,
{
    if j < r.len() {
        lemma_first_later_range(r, t, j + 1);
    }
}

/// Sorts metadata by creation time, stably.
fn sort_by_age(v: Vec<SnapshotRef>) -> (r: Vec<SnapshotRef>)
    ensures
        r@ == by_age_spec(v@),
{
    let mut out: Vec<SnapshotRef> = Vec::new();
    let mut k: usize = 0;
    while k < v.len()
        invariant
            0 <= k <= v@.len(),
            out@ == by_age_spec(v@.take(k as int)),
        decreases v.len() - k,
    {
        let x = v[k];
        let mut j: usize = 0;
        while j < out.len() && out[j].created_at <= x.created_at
            invariant
                0 <= j <= out@.len(),
                first_later(out@, x.created_at, 0) == first_later(out@, x.created_at, j as int),
            decreases out.len() - j,
        {
            j += 1;
        }
        proof {
            assert(v@.take(k + 1).drop_last() =~= v@.take(k as int));
            assert(v@.take(k + 1).last() == x);
            lemma_first_later_range(out@, x.created_at, j as int);
        }
        out.insert(j, x);
        k += 1;
    }
    proof {
        assert(v@.take(k as int) =~= v@);
    }
    out
}

/// Candidates for age among the first `n` aged snapshots: the unprotected
/// ones when protection is respected.
pub open spec fn age_candidates(aged: Seq<SnapshotRef>, p: SnapshotRetentionPolicy, n: int) -> Seq<GcCandidate>
    decreases n,
{
    if n <= 0 {
        Seq::empty()
    } else {
        let c = age_candidates(aged, p, n - 1);
        let s = aged[n - 1];
        if p.respect_protected && s.flags & flags::PROTECTED != 0 {
            c
        } else {
            c.push(GcCandidate { id: s.id, created_at: s.created_at, total_bytes: s.total_bytes, reason: GcReason::AgeExceeded })
        }
    }
}

/// Candidates for count among the first `n` of the oldest snapshots.
pub open spec fn count_candidates(sorted: Seq<SnapshotRef>, p: SnapshotRetentionPolicy, n: int) -> Seq<GcCandidate>
    decreases n,
{
    if n <= 0 {
        Seq::empty()
    } else {
        let c = count_candidates(sorted, p, n - 1);
        let s = sorted[n - 1];
        if p.respect_protected && s.flags & flags::PROTECTED != 0 {
            c
        } else {
            c.push(GcCandidate { id: s.id, created_at: s.created_at, total_bytes: s.total_bytes, reason: GcReason::CountExceeded })
        }
    }
}

/// Sum of the sizes of the first `n` candidates.
pub open spec fn candidates_bytes(c: Seq<GcCandidate>, n: int) -> int
    decreases n,
{
    if n <= 0 { 0 } else { candidates_bytes(c, n - 1) + c[n - 1].total_bytes }
}

proof fn lemma_candidates_bytes_mono(c: Seq<GcCandidate>, a: int, b: int)
    requires
        0 <= a <= b <= c.len(),
    ensures
        candidates_bytes(c, a) <= candidates_bytes(c, b),
    decreases b - a,
{
    if a < b {
        lemma_candidates_bytes_mono(c, a, b - 1);
    }
}

/// The counters and identifiers a collection reports.
pub struct GcTally {
    pub n_deleted: u32,
    pub bytes_freed: u64,
    pub deleted_ids: Seq<SnapshotId>,
    pub n_skipped: u32,
    pub n_errors: u32,
}

/// The counters and identifiers of report `r`.
pub open spec fn tally_of(r: SnapshotGcReport) -> GcTally {
    GcTally {
        n_deleted: r.n_deleted,
        bytes_freed: r.bytes_freed,
        deleted_ids: r.deleted_ids@,
        n_skipped: r.n_skipped,
        n_errors: r.n_errors,
    }
}

/// Nothing counted yet.
pub open spec fn empty_tally() -> GcTally {
    GcTally { n_deleted: 0, bytes_freed: 0, deleted_ids: Seq::empty(), n_skipped: 0, n_errors: 0 }
}

/// `x + 1`, clamped to `u32::MAX`.
pub open spec fn inc32(x: u32) -> u32 {
    if x == u32::MAX { x } else { (x + 1) as u32 }
}

/// `x - y`, clamped to 0.
pub open spec fn sub64(x: u64, y: u64) -> u64 {
    if x >= y { (x - y) as u64 } else { 0 }
}

/// One snapshot left alone.
pub open spec fn tally_skip(t: GcTally) -> GcTally {
    GcTally { n_skipped: inc32(t.n_skipped), ..t }
}

/// One deletion refused.
pub open spec fn tally_fail(t: GcTally) -> GcTally {
    GcTally { n_skipped: inc32(t.n_skipped), n_errors: inc32(t.n_errors), ..t }
}

/// The snapshot `id` deleted, freeing `freed` bytes.
pub open spec fn tally_delete(t: GcTally, id: SnapshotId, freed: u64) -> GcTally {
    GcTally { n_deleted: inc32(t.n_deleted), bytes_freed: add64(t.bytes_freed, freed), deleted_ids: t.deleted_ids.push(id), ..t }
}

/// One deletion attempt of `id` and its record: the registry, the tally and
/// the bytes freed on success. A refused cascade may still have removed
/// some descendants.
pub open spec fn attempt(l: SnapshotListView, t: GcTally, id: SnapshotId, o: DeleteOptions) -> (SnapshotListView, GcTally, Option<u64>) {
    let out = delete_outcome(l, id, o);
    match out.1 {
        Ok(v) => (out.0, tally_delete(t, id, v.0), Some(v.0)),
        Err(_) => (out.0, tally_fail(t), None),
    }
}

/// The policy respects protection and `s` is protected.
pub open spec fn spared(p: SnapshotRetentionPolicy, s: SnapshotRef) -> bool {
    p.respect_protected && s.flags & flags::PROTECTED != 0
}

/// The pass by age over the first `n` aged snapshots.
pub open spec fn age_pass(
    aged: Seq<SnapshotRef>,
    p: SnapshotRetentionPolicy,
    o: DeleteOptions,
    l: SnapshotListView,
    t: GcTally,
    n: int,
) -> (SnapshotListView, GcTally)
    decreases n,
{
    if n <= 0 {
        (l, t)
    } else {
        let prev = age_pass(aged, p, o, l, t, n - 1);
        let s = aged[n - 1];
        if spared(p, s) {
            (prev.0, tally_skip(prev.1))
        } else {
            let a = attempt(prev.0, prev.1, s.id, o);
            (a.0, a.1)
        }
    }
}

/// The pass by count over the first `n` snapshots, oldest first, until
/// `excess` of them are deleted; the third value counts the deletions.
pub open spec fn count_pass(
    all: Seq<SnapshotRef>,
    p: SnapshotRetentionPolicy,
    o: DeleteOptions,
    excess: int,
    l: SnapshotListView,
    t: GcTally,
    n: int,
) -> (SnapshotListView, GcTally, int)
    decreases n,
{
    if n <= 0 {
        (l, t, 0)
    } else {
        let prev = count_pass(all, p, o, excess, l, t, n - 1);
        let s = all[n - 1];
        if prev.2 >= excess {
            prev
        } else if spared(p, s) {
            (prev.0, tally_skip(prev.1), prev.2)
        } else if has_key(prev.0.entries, s.id.0) {
            let a = attempt(prev.0, prev.1, s.id, o);
            (a.0, a.1, if a.2 is Some { prev.2 + 1 } else { prev.2 })
        } else {
            prev
        }
    }
}

/// The pass by total size over the first `n` snapshots, oldest first,
/// until the bytes counted from `cur` fall to `limit`.
pub open spec fn quota_pass(
    all: Seq<SnapshotRef>,
    p: SnapshotRetentionPolicy,
    o: DeleteOptions,
    limit: u64,
    l: SnapshotListView,
    t: GcTally,
    cur: u64,
    n: int,
) -> (SnapshotListView, GcTally, u64)
    decreases n,
{
    if n <= 0 {
        (l, t, cur)
    } else {
        let prev = quota_pass(all, p, o, limit, l, t, cur, n - 1);
        let s = all[n - 1];
        if prev.2 <= limit {
            prev
        } else if spared(p, s) {
            (prev.0, tally_skip(prev.1), prev.2)
        } else if has_key(prev.0.entries, s.id.0) {
            let a = attempt(prev.0, prev.1, s.id, o);
            (a.0, a.1, match a.2 {
                Some(f) => sub64(prev.2, f),
                None => prev.2,
            })
        } else {
            prev
        }
    }
}

/// The metadata of the entries, in key order.
pub open spec fn refs_of(s: Seq<(u64, Snapshot)>) -> Seq<SnapshotRef> {
    s.map_values(|e: (u64, Snapshot)| ref_of(e.1))
}

/// The options of the deletions a collection makes under `p`.
pub open spec fn gc_opts(p: SnapshotRetentionPolicy) -> DeleteOptions {
    DeleteOptions { cascade: p.cascade, force: !p.respect_protected, skip_mounted: true }
}

/// The pass by age from `l` and `t`, when the policy has an age limit.
pub open spec fn age_stage(l: SnapshotListView, t: GcTally, p: SnapshotRetentionPolicy, now: u64) -> (SnapshotListView, GcTally) {
    let aged = older_upto(l.entries, now, p.max_age_ticks, l.entries.len() as int);
    if p.max_age_ticks > 0 { age_pass(aged, p, gc_opts(p), l, t, aged.len() as int) } else { (l, t) }
}

/// The pass by count from `l` and `t`, when the recorded count passes the limit.
pub open spec fn count_stage(l: SnapshotListView, t: GcTally, p: SnapshotRetentionPolicy) -> (SnapshotListView, GcTally) {
    let all = by_age_spec(refs_of(l.entries));
    if p.max_count > 0 && l.count > p.max_count {
        let r = count_pass(all, p, gc_opts(p), l.count - p.max_count, l, t, all.len() as int);
        (r.0, r.1)
    } else {
        (l, t)
    }
}

/// The pass by size from `l` and `t`, when the recorded bytes pass the limit.
pub open spec fn quota_stage(l: SnapshotListView, t: GcTally, p: SnapshotRetentionPolicy) -> (SnapshotListView, GcTally) {
    let all = by_age_spec(refs_of(l.entries));
    if p.max_total_bytes > 0 && l.total_bytes > p.max_total_bytes {
        let r = quota_pass(all, p, gc_opts(p), p.max_total_bytes, l, t, l.total_bytes, all.len() as int);
        (r.0, r.1)
    } else {
        (l, t)
    }
}

/// A whole collection of `l` at `now` under `p`: by age, then by count, then
/// by size.
pub open spec fn gc_outcome(l: SnapshotListView, p: SnapshotRetentionPolicy, now: u64) -> (SnapshotListView, GcTally) {
    let a = age_stage(l, empty_tally(), p, now);
    let c = count_stage(a.0, a.1, p);
    quota_stage(c.0, c.1, p)
}

/// Once the pass by count has deleted enough, the later snapshots change nothing.
proof fn lemma_count_done(
    all: Seq<SnapshotRef>,
    p: SnapshotRetentionPolicy,
    o: DeleteOptions,
    excess: int,
    l: SnapshotListView,
    t: GcTally,
    i: int,
    n: int,
)
    requires
        0 <= i <= n,
        count_pass(all, p, o, excess, l, t, i).2 >= excess,
    ensures
        count_pass(all, p, o, excess, l, t, n) == count_pass(all, p, o, excess, l, t, i),
    decreases n - i,
{
    if n > i {
        lemma_count_done(all, p, o, excess, l, t, i, n - 1);
    }
}

/// Once the pass by size is within the limit, the later snapshots change nothing.
proof fn lemma_quota_done(
    all: Seq<SnapshotRef>,
    p: SnapshotRetentionPolicy,
    o: DeleteOptions,
    limit: u64,
    l: SnapshotListView,
    t: GcTally,
    cur: u64,
    i: int,
    n: int,
)
    requires
        0 <= i <= n,
        quota_pass(all, p, o, limit, l, t, cur, i).2 <= limit,
    ensures
        quota_pass(all, p, o, limit, l, t, cur, n) == quota_pass(all, p, o, limit, l, t, cur, i),
    decreases n - i,
{
    if n > i {
        lemma_quota_done(all, p, o, limit, l, t, cur, i, n - 1);
    }
}

/// Collector of snapshots.
pub struct SnapshotGc;

/// The state of a collection pass that callers rely on.
pub open spec fn gc_keeps<'a>(
    old_list: Seq<(u64, crate::snapshot::snapshot::Snapshot)>,
    new_list: Seq<(u64, crate::snapshot::snapshot::Snapshot)>,
    p: SnapshotRetentionPolicy,
    deleted: Seq<SnapshotId>,
) -> bool {
    &&& tree_ordered(new_list)
    &&& entries_within(new_list, old_list)
    &&& p.respect_protected ==> keeps_protected(old_list, new_list)
    &&& forall|k: int| 0 <= k < deleted.len() ==> !has_key(new_list, (#[trigger] deleted[k]).0)
}

impl SnapshotGc {
    /// One collection pass over `list` at time `now`: by age, then by count,
    /// then by total size; the oldest go first.
    pub fn run(list: &mut SnapshotList, policy: SnapshotRetentionPolicy, now: u64) -> (r: ExofsResult<SnapshotGcReport>)
        requires
            old(list).wf(),
            tree_ordered(old(list)@.entries),
        ensures
            final(list).wf(),
            gc_keeps(old(list)@.entries, final(list)@.entries, policy, Seq::empty()),
            policy.max_count == 0 && policy.max_age_ticks == 0 && policy.max_total_bytes == 0 ==> (r matches Ok(rep)
                && rep.n_deleted == 0 && rep.deleted_ids@.len() == 0 && rep.policy == policy && final(list)@ == old(list)@),
            r matches Ok(rep) ==> rep.policy == policy && gc_keeps(old(list)@.entries, final(list)@.entries, policy, rep.deleted_ids@)
                && (!(policy.max_count == 0 && policy.max_age_ticks == 0 && policy.max_total_bytes == 0)
                    ==> rep.remaining_count == final(list)@.count),
            r is Ok,
            r matches Ok(rep) && final(list)@ == gc_outcome(old(list)@, policy, now).0
                && tally_of(rep) == gc_outcome(old(list)@, policy, now).1,
    {
        if policy.is_unlimited() {
            proof {
                Self::lemma_keeps_refl(list@.entries, policy);
            }
            let rep = SnapshotGcReport::new(policy);
            proof {
                assert(rep.deleted_ids@ =~= Seq::<SnapshotId>::empty());
            }
            return Ok(rep);
        }
        let mut report = SnapshotGcReport::new(policy);
        let opts = DeleteOptions { cascade: policy.cascade, force: !policy.respect_protected, skip_mounted: true };
        proof {
            Self::lemma_keeps_refl(list@.entries, policy);
            assert(report.deleted_ids@ =~= Seq::<SnapshotId>::empty());
            assert(tally_of(report) == empty_tally());
        }
        let ghost a = age_stage(old(list)@, empty_tally(), policy, now);
        let ghost c = count_stage(a.0, a.1, policy);
        if policy.max_age_ticks > 0 {
            let ghost before = list@.entries;
            let r1 = Self::gc_by_age(list, policy, now, opts, &mut report);
            proof {
                Self::lemma_keeps_step(old(list)@.entries, before, list@.entries, policy, report.deleted_ids@);
            }
            if let Err(e) = r1 {
                return Err(e);
            }
        }
        proof {
            assert(list@ == a.0 && tally_of(report) == a.1);
        }
        if policy.max_count > 0 {
            let ghost before = list@.entries;
            let r2 = Self::gc_by_count(list, policy, opts, &mut report);
            proof {
                Self::lemma_keeps_step(old(list)@.entries, before, list@.entries, policy, report.deleted_ids@);
            }
            if let Err(e) = r2 {
                return Err(e);
            }
        }
        proof {
            assert(list@ == c.0 && tally_of(report) == c.1);
        }
        if policy.max_total_bytes > 0 {
            let ghost before = list@.entries;
            let r3 = Self::gc_by_quota(list, policy, opts, &mut report);
            proof {
                Self::lemma_keeps_step(old(list)@.entries, before, list@.entries, policy, report.deleted_ids@);
            }
            if let Err(e) = r3 {
                return Err(e);
            }
        }
        report.remaining_count = list.count();
        Ok(report)
    }

    proof fn lemma_keeps_refl(s: Seq<(u64, crate::snapshot::snapshot::Snapshot)>, p: SnapshotRetentionPolicy)
        requires
            tree_ordered(s),
        ensures
            gc_keeps(s, s, p, Seq::empty()),
    {
        assert forall|a: int| 0 <= a < s.len() implies #[trigger] crate::snapshot::snapshot_delete::holds_entry(s, s[a]) by {
            assert(s[a] == s[a]);
        }
    }

    /// Carries `gc_keeps` over one more deletion step.
    proof fn lemma_keeps_step(
        o: Seq<(u64, crate::snapshot::snapshot::Snapshot)>,
        m: Seq<(u64, crate::snapshot::snapshot::Snapshot)>,
        n: Seq<(u64, crate::snapshot::snapshot::Snapshot)>,
        p: SnapshotRetentionPolicy,
        d: Seq<SnapshotId>,
    )
        requires
            gc_keeps(o, m, p, Seq::empty()),
            gc_keeps(m, n, p, d),
        ensures
            gc_keeps(o, n, p, d),
    {
        SnapshotDeleter::lemma_within_trans(n, m, o);
        if p.respect_protected {
            crate::snapshot::snapshot_delete::lemma_keeps_trans(o, m, n);
        }
    }

    fn gc_by_age(
        list: &mut SnapshotList,
        policy: SnapshotRetentionPolicy,
        now: u64,
        opts: DeleteOptions,
        report: &mut SnapshotGcReport,
    ) -> (r: ExofsResult<()>)
        requires
            old(list).wf(),
            tree_ordered(old(list)@.entries),
            opts == gc_opts(policy),
            policy.max_age_ticks > 0,
            forall|k: int| 0 <= k < old(report).deleted_ids@.len() ==> !has_key(old(list)@.entries, (#[trigger] old(report).deleted_ids@[k]).0),
        ensures
            r is Ok,
            final(list).wf(),
            final(report).policy == old(report).policy,
            final(report).remaining_count == old(report).remaining_count,
            gc_keeps(old(list)@.entries, final(list)@.entries, policy, final(report).deleted_ids@),
            (final(list)@, tally_of(*final(report))) == age_stage(old(list)@, tally_of(*old(report)), policy, now),
    {
        proof {
            Self::lemma_keeps_refl(list@.entries, policy);
        }
        let aged = match list.older_than(now, policy.max_age_ticks) {
            Ok(a) => a,
            Err(e) => return Err(e),
        };
        let mut i: usize = 0;
        while i < aged.len()
            invariant
                list.wf(),
                opts == gc_opts(policy),
                report.policy == old(report).policy,
                report.remaining_count == old(report).remaining_count,
                gc_keeps(old(list)@.entries, list@.entries, policy, report.deleted_ids@),
                forall|k: int| 0 <= k < report.deleted_ids@.len() ==> !has_key(list@.entries, (#[trigger] report.deleted_ids@[k]).0),
                0 <= i <= aged@.len(),
                aged@ == older_upto(old(list)@.entries, now, policy.max_age_ticks, old(list)@.entries.len() as int),
                (list@, tally_of(*report)) == age_pass(aged@, policy, opts, old(list)@, tally_of(*old(report)), i as int),
            decreases aged.len() - i,
        {
            let s = aged[i];
            if policy.respect_protected && s.flags & flags::PROTECTED != 0 {
                report.n_skipped = report.n_skipped.saturating_add(1);
            } else {
                let ghost before = list@.entries;
                let _ = Self::delete_one(list, policy, opts, report, s.id);
                proof {
                    Self::lemma_keeps_step(old(list)@.entries, before, list@.entries, policy, report.deleted_ids@);
                }
            }
            i += 1;
        }
        Ok(())
    }

    /// Deletes `id` and records the outcome in `report`.
    fn delete_one(list: &mut SnapshotList, policy: SnapshotRetentionPolicy, opts: DeleteOptions, report: &mut SnapshotGcReport, id: SnapshotId) -> (freed: Option<u64>)
        requires
            old(list).wf(),
            tree_ordered(old(list)@.entries),
            opts.force == !policy.respect_protected,
            forall|k: int| 0 <= k < old(report).deleted_ids@.len() ==> !has_key(old(list)@.entries, (#[trigger] old(report).deleted_ids@[k]).0),
        ensures
            final(list).wf(),
            final(report).policy == old(report).policy,
            gc_keeps(old(list)@.entries, final(list)@.entries, policy, final(report).deleted_ids@),
            final(report).deleted_ids@.len() >= old(report).deleted_ids@.len(),
            freed is Some <==> final(report).deleted_ids@.len() > old(report).deleted_ids@.len(),
            final(report).remaining_count == old(report).remaining_count,
            final(report).duration_ticks == old(report).duration_ticks,
            ({
                let a = attempt(old(list)@, tally_of(*old(report)), id, opts);
                final(list)@ == a.0 && tally_of(*final(report)) == a.1 && freed == a.2
            }),
    {
        let ghost before = list@.entries;
        proof {
            Self::lemma_keeps_refl(before, policy);
        }
        let freed = match SnapshotDeleter::delete(list, id, opts) {
            Ok(res) => {
                report.bytes_freed = report.bytes_freed.saturating_add(res.freed_bytes);
                report.n_deleted = report.n_deleted.saturating_add(1);
                report.deleted_ids.push(id);
                Some(res.freed_bytes)
            },
            Err(_) => {
                report.n_skipped = report.n_skipped.saturating_add(1);
                report.n_errors = report.n_errors.saturating_add(1);
                None
            },
        };
        proof {
            assert forall|k: int| 0 <= k < report.deleted_ids@.len() implies !has_key(list@.entries, (#[trigger] report.deleted_ids@[k]).0) by {
                if k < old(report).deleted_ids@.len() {
                    assert(report.deleted_ids@[k] == old(report).deleted_ids@[k]);
                    if has_key(list@.entries, report.deleted_ids@[k].0) {
                        let a = choose|a: int| 0 <= a < list@.entries.len() && (#[trigger] list@.entries[a]).0 == report.deleted_ids@[k].0;
                        assert(crate::snapshot::snapshot_delete::holds_entry(before, list@.entries[a]));
                        let b = choose|b: int| 0 <= b < before.len() && before[b] == list@.entries[a];
                        assert(before[b].0 == old(report).deleted_ids@[k].0);
                    }
                }
            }
        }
        freed
    }

    fn gc_by_count(list: &mut SnapshotList, policy: SnapshotRetentionPolicy, opts: DeleteOptions, report: &mut SnapshotGcReport) -> (r: ExofsResult<()>)
        requires
            old(list).wf(),
            tree_ordered(old(list)@.entries),
            opts == gc_opts(policy),
            policy.max_count > 0,
            forall|k: int| 0 <= k < old(report).deleted_ids@.len() ==> !has_key(old(list)@.entries, (#[trigger] old(report).deleted_ids@[k]).0),
        ensures
            r is Ok,
            final(list).wf(),
            final(report).policy == old(report).policy,
            final(report).remaining_count == old(report).remaining_count,
            gc_keeps(old(list)@.entries, final(list)@.entries, policy, final(report).deleted_ids@),
            (final(list)@, tally_of(*final(report))) == count_stage(old(list)@, tally_of(*old(report)), policy),
    {
        proof {
            Self::lemma_keeps_refl(list@.entries, policy);
        }
        let current = list.count();
        if current <= policy.max_count {
            return Ok(());
        }
        let excess = current - policy.max_count;
        let all = match list.all_refs() {
            Ok(a) => sort_by_age(a),
            Err(e) => return Err(e),
        };
        let mut deleted: usize = 0;
        let mut i: usize = 0;
        while i < all.len() && deleted < excess
            invariant
                list.wf(),
                opts == gc_opts(policy),
                report.policy == old(report).policy,
                report.remaining_count == old(report).remaining_count,
                gc_keeps(old(list)@.entries, list@.entries, policy, report.deleted_ids@),
                forall|k: int| 0 <= k < report.deleted_ids@.len() ==> !has_key(list@.entries, (#[trigger] report.deleted_ids@[k]).0),
                0 <= i <= all@.len(),
                deleted <= i,
                all@ == by_age_spec(refs_of(old(list)@.entries)),
                excess == old(list)@.count - policy.max_count,
                ({
                    let c = count_pass(all@, policy, opts, excess as int, old(list)@, tally_of(*old(report)), i as int);
                    list@ == c.0 && tally_of(*report) == c.1 && deleted == c.2
                }),
            decreases all.len() - i,
        {
            let s = all[i];
            if policy.respect_protected && s.flags & flags::PROTECTED != 0 {
                report.n_skipped = report.n_skipped.saturating_add(1);
            } else if list.get(s.id).is_ok() {
                let ghost before = list@.entries;
                let freed = Self::delete_one(list, policy, opts, report, s.id);
                proof {
                    Self::lemma_keeps_step(old(list)@.entries, before, list@.entries, policy, report.deleted_ids@);
                }
                if freed.is_some() {
                    deleted = deleted + 1;
                }
            }
            i += 1;
        }
        proof {
            if i < all@.len() {
                lemma_count_done(all@, policy, opts, excess as int, old(list)@, tally_of(*old(report)), i as int, all@.len() as int);
            }
        }
        Ok(())
    }

    fn gc_by_quota(list: &mut SnapshotList, policy: SnapshotRetentionPolicy, opts: DeleteOptions, report: &mut SnapshotGcReport) -> (r: ExofsResult<()>)
        requires
            old(list).wf(),
            tree_ordered(old(list)@.entries),
            opts == gc_opts(policy),
            policy.max_total_bytes > 0,
            forall|k: int| 0 <= k < old(report).deleted_ids@.len() ==> !has_key(old(list)@.entries, (#[trigger] old(report).deleted_ids@[k]).0),
        ensures
            r is Ok,
            final(list).wf(),
            final(report).policy == old(report).policy,
            final(report).remaining_count == old(report).remaining_count,
            gc_keeps(old(list)@.entries, final(list)@.entries, policy, final(report).deleted_ids@),
            (final(list)@, tally_of(*final(report))) == quota_stage(old(list)@, tally_of(*old(report)), policy),
    {
        proof {
            Self::lemma_keeps_refl(list@.entries, policy);
        }
        let mut current_bytes = list.total_bytes();
        if current_bytes <= policy.max_total_bytes {
            return Ok(());
        }
        let all = match list.all_refs() {
            Ok(a) => sort_by_age(a),
            Err(e) => return Err(e),
        };
        let mut i: usize = 0;
        while i < all.len() && current_bytes > policy.max_total_bytes
            invariant
                list.wf(),
                opts == gc_opts(policy),
                report.policy == old(report).policy,
                report.remaining_count == old(report).remaining_count,
                gc_keeps(old(list)@.entries, list@.entries, policy, report.deleted_ids@),
                forall|k: int| 0 <= k < report.deleted_ids@.len() ==> !has_key(list@.entries, (#[trigger] report.deleted_ids@[k]).0),
                0 <= i <= all@.len(),
                all@ == by_age_spec(refs_of(old(list)@.entries)),
                old(list)@.total_bytes > policy.max_total_bytes,
                ({
                    let c = quota_pass(all@, policy, opts, policy.max_total_bytes, old(list)@, tally_of(*old(report)),
                        old(list)@.total_bytes, i as int);
                    list@ == c.0 && tally_of(*report) == c.1 && current_bytes == c.2
                }),
            decreases all.len() - i,
        {
            let s = all[i];
            if policy.respect_protected && s.flags & flags::PROTECTED != 0 {
                report.n_skipped = report.n_skipped.saturating_add(1);
            } else if list.get(s.id).is_ok() {
                let ghost before = list@.entries;
                let freed = Self::delete_one(list, policy, opts, report, s.id);
                proof {
                    Self::lemma_keeps_step(old(list)@.entries, before, list@.entries, policy, report.deleted_ids@);
                }
                if let Some(f) = freed {
                    current_bytes = current_bytes.saturating_sub(f);
                }
            }
            i += 1;
        }
        proof {
            if i < all@.len() {
                lemma_quota_done(all@, policy, opts, policy.max_total_bytes, old(list)@, tally_of(*old(report)),
                    old(list)@.total_bytes, i as int, all@.len() as int);
            }
        }
        Ok(())
    }

    /// The candidates of the policy at `now`, without deleting: the aged
    /// snapshots, then the oldest ones beyond the count limit; protected ones
    /// are left out when protection is respected.
    pub fn dry_run(list: &SnapshotList, policy: SnapshotRetentionPolicy, now: u64) -> (r: ExofsResult<Vec<GcCandidate>>)
        ensures
            r matches Ok(c) && c@ == Self::dry_run_spec(list@.entries, list@.count, policy, now),
    {
        let mut candidates: Vec<GcCandidate> = Vec::new();
        if policy.max_age_ticks > 0 {
            let aged = match list.older_than(now, policy.max_age_ticks) {
                Ok(a) => a,
                Err(e) => return Err(e),
            };
            let mut i: usize = 0;
            while i < aged.len()
                invariant
                    0 <= i <= aged@.len(),
                    candidates@ == age_candidates(aged@, policy, i as int),
                decreases aged.len() - i,
            {
                let s = aged[i];
                if !(policy.respect_protected && s.flags & flags::PROTECTED != 0) {
                    candidates.push(GcCandidate { id: s.id, created_at: s.created_at, total_bytes: s.total_bytes, reason: GcReason::AgeExceeded });
                }
                i += 1;
            }
        }
        let ghost first = candidates@;
        if policy.max_count > 0 {
            let excess = list.count().saturating_sub(policy.max_count);
            if excess > 0 {
                let all = match list.all_refs() {
                    Ok(a) => sort_by_age(a),
                    Err(e) => return Err(e),
                };
                let n = if excess < all.len() { excess } else { all.len() };
                let mut i: usize = 0;
                while i < n
                    invariant
                        0 <= i <= n,
                        n <= all@.len(),
                        candidates@ == first + count_candidates(all@, policy, i as int),
                    decreases n - i,
                {
                    let s = all[i];
                    if !(policy.respect_protected && s.flags & flags::PROTECTED != 0) {
                        candidates.push(GcCandidate { id: s.id, created_at: s.created_at, total_bytes: s.total_bytes, reason: GcReason::CountExceeded });
                        proof {
                            assert(candidates@ =~= first + count_candidates(all@, policy, i + 1));
                        }
                    }
                    i += 1;
                }
            }
        }
        proof {
            assert(candidates@ =~= Self::dry_run_spec(list@.entries, list@.count, policy, now));
        }
        Ok(candidates)
    }

    /// The candidates `dry_run` gives.
    pub open spec fn dry_run_spec(
        e: Seq<(u64, crate::snapshot::snapshot::Snapshot)>,
        count: usize,
        p: SnapshotRetentionPolicy,
        now: u64,
    ) -> Seq<GcCandidate> {
        let aged = older_upto(e, now, p.max_age_ticks, e.len() as int);
        let by_age = if p.max_age_ticks > 0 { age_candidates(aged, p, aged.len() as int) } else { Seq::empty() };
        let excess: int = if count > p.max_count { count - p.max_count } else { 0 };
        let sorted = by_age_spec(e.map_values(|x: (u64, crate::snapshot::snapshot::Snapshot)| ref_of(x.1)));
        let n = if excess < sorted.len() { excess } else { sorted.len() as int };
        by_age + (if p.max_count > 0 && excess > 0 { count_candidates(sorted, p, n) } else { Seq::empty() })
    }

    /// Bytes the candidates of the policy would free; `Overflow` when the
    /// sum does not fit.
    pub fn estimate_freed(list: &SnapshotList, policy: SnapshotRetentionPolicy, now: u64) -> (r: ExofsResult<u64>)
        ensures
            ({
                let c = Self::dry_run_spec(list@.entries, list@.count, policy, now);
                &&& candidates_bytes(c, c.len() as int) > u64::MAX ==> r == Err::<u64, ExofsError>(ExofsError::Overflow)
                &&& candidates_bytes(c, c.len() as int) <= u64::MAX ==> (r matches Ok(t) && t == candidates_bytes(c, c.len() as int))
            }),
    {
        let candidates = match Self::dry_run(list, policy, now) {
            Ok(c) => c,
            Err(e) => return Err(e),
        };
        let mut total: u64 = 0;
        let mut i: usize = 0;
        while i < candidates.len()
            invariant
                0 <= i <= candidates@.len(),
                total == candidates_bytes(candidates@, i as int),
                candidates@ == Self::dry_run_spec(list@.entries, list@.count, policy, now),
            decreases candidates.len() - i,
        {
            total = match total.checked_add(candidates[i].total_bytes) {
                Some(t) => t,
                None => {
                    proof {
                        assert(candidates_bytes(candidates@, i + 1) == total + candidates@[i as int].total_bytes);
                        lemma_candidates_bytes_mono(candidates@, i + 1, candidates@.len() as int);
                    }
                    return Err(ExofsError::Overflow);
                },
            };
            i += 1;
        }
        Ok(total)
    }
}

/// The pass by count deletes no more snapshots than the excess it was given:
/// it stops at the first point where that many are gone.
pub proof fn lemma_count_pass_stops_at_excess(
    all: Seq<SnapshotRef>,
    p: SnapshotRetentionPolicy,
    o: DeleteOptions,
    excess: int,
    l: SnapshotListView,
    t: GcTally,
    n: int,
)
    requires
        excess >= 0,
    ensures
        0 <= count_pass(all, p, o, excess, l, t, n).2 <= excess,
    decreases n,
{
    if n > 0 {
        lemma_count_pass_stops_at_excess(all, p, o, excess, l, t, n - 1);
    }
}

/// The pass by size never counts more bytes than it started from, and one
/// that starts at or under its limit deletes nothing and changes nothing.
pub proof fn lemma_quota_pass_shrinks(
    all: Seq<SnapshotRef>,
    p: SnapshotRetentionPolicy,
    o: DeleteOptions,
    limit: u64,
    l: SnapshotListView,
    t: GcTally,
    cur: u64,
    n: int,
)
    ensures
        quota_pass(all, p, o, limit, l, t, cur, n).2 <= cur,
        cur <= limit ==> quota_pass(all, p, o, limit, l, t, cur, n) == (l, t, cur),
    decreases n,
{
    if n > 0 {
        lemma_quota_pass_shrinks(all, p, o, limit, l, t, cur, n - 1);
    }
}

} // verus!
