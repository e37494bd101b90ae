//! Quotas of snapshots: a limit of bytes and blobs per snapshot, and a
//! global policy on the total bytes and the number of snapshots.
use vstd::prelude::*;
use crate::types::{ExofsError, ExofsResult, SnapshotId};
use crate::snapshot::snapshot::{flags, Snapshot};
use crate::snapshot::snapshot_list::{has_key, keys_sorted, SnapshotList};
use crate::snapshot::snapshot_protect::flags_set;
use crate::snapshot::keyed::{map_of, value_at, lemma_value_at, KeyedVec};

verus! {

/// `a + b`, clamped to `u64::MAX`.
pub open spec fn sat_add(a: u64, b: u64) -> u64 {
    if a + b > u64::MAX { u64::MAX } else { (a + b) as u64 }
}

/// The quota of one snapshot.
#[derive(Clone, Copy, Debug)]
pub struct SnapshotQuotaEntry {
    pub snap_id: SnapshotId,
    /// 0: no limit.
    pub max_bytes: u64,
    /// 0: no limit.
    pub max_blobs: u64,
    pub used_bytes: u64,
    pub used_blobs: u64,
}

/// `bytes` more bytes and `blobs` more blobs stay within the limits of `e`
/// (the sums taken with saturation).
pub open spec fn may_allocate(e: SnapshotQuotaEntry, bytes: u64, blobs: u64) -> bool {
    &&& (e.max_bytes == 0 || sat_add(e.used_bytes, bytes) <= e.max_bytes)
    &&& (e.max_blobs == 0 || sat_add(e.used_blobs, blobs) <= e.max_blobs)
}

/// The use of `e` is over one of its limits.
pub open spec fn quota_exceeded(e: SnapshotQuotaEntry) -> bool {
    (e.max_bytes > 0 && e.used_bytes > e.max_bytes) || (e.max_blobs > 0 && e.used_blobs > e.max_blobs)
}

impl SnapshotQuotaEntry {
    /// A quota of `max_bytes` and `max_blobs` with nothing used.
    pub fn new(snap_id: SnapshotId, max_bytes: u64, max_blobs: u64) -> (r: SnapshotQuotaEntry)
        ensures
            r == (SnapshotQuotaEntry { snap_id, max_bytes, max_blobs, used_bytes: 0, used_blobs: 0 }),
    {
        SnapshotQuotaEntry { snap_id, max_bytes, max_blobs, used_bytes: 0, used_blobs: 0 }
    }

    /// True iff `bytes` more bytes and `blobs` more blobs are allowed.
    pub fn can_allocate(&self, bytes: u64, blobs: u64) -> (r: bool)
        ensures
            r == may_allocate(*self, bytes, blobs),
    {
        let new_bytes = self.used_bytes.saturating_add(bytes);
        let new_blobs = self.used_blobs.saturating_add(blobs);
        (self.max_bytes == 0 || new_bytes <= self.max_bytes) && (self.max_blobs == 0 || new_blobs <= self.max_blobs)
    }

    /// True iff the use is over one of the limits.
    pub fn is_exceeded(&self) -> (r: bool)
        ensures
            r == quota_exceeded(*self),
    {
        (self.max_bytes > 0 && self.used_bytes > self.max_bytes) || (self.max_blobs > 0 && self.used_blobs > self.max_blobs)
    }
}

/// The global policy; 0 means no limit in each field.
#[derive(Clone, Copy, Debug)]
pub struct GlobalQuotaPolicy {
    pub max_total_bytes: u64,
    pub max_snap_count: usize,
    /// Limit of a snapshot that has no quota of its own.
    pub default_snap_max_bytes: u64,
}

impl Default for GlobalQuotaPolicy {
    fn default() -> (r: GlobalQuotaPolicy)
        ensures
            r == (GlobalQuotaPolicy { max_total_bytes: 0, max_snap_count: 0, default_snap_max_bytes: 0 }),
    {
        GlobalQuotaPolicy { max_total_bytes: 0, max_snap_count: 0, default_snap_max_bytes: 0 }
    }
}

/// Quotas, policy and global counters.
pub struct QuotaView {
    pub entries: Seq<(u64, SnapshotQuotaEntry)>,
    pub policy: GlobalQuotaPolicy,
    pub used_bytes: u64,
    pub snap_count: usize,
}

/// Table of the quotas.
pub struct SnapshotQuotaTable {
    entries: KeyedVec<SnapshotQuotaEntry>,
    policy: GlobalQuotaPolicy,
    global_used_bytes: u64,
    global_snap_count: usize,
}

impl View for SnapshotQuotaTable {
    type V = QuotaView;

    closed spec fn view(&self) -> QuotaView {
        QuotaView {
            entries: self.entries@,
            policy: self.policy,
            used_bytes: self.global_used_bytes,
            snap_count: self.global_snap_count,
        }
    }
}

/// `v` moved by `d`: `None` when it would pass `u64::MAX`, 0 at the least.
pub open spec fn apply_delta(v: u64, d: i64) -> Option<u64> {
    if d >= 0 {
        if v + d > u64::MAX { None } else { Some((v + d) as u64) }
    } else {
        Some(if v >= -d { (v + d) as u64 } else { 0 })
    }
}

/// The global byte counter after moving it by `d`, with the result owed.
pub open spec fn global_step(o: u64, d: i64, n: u64, r: ExofsResult<()>) -> bool {
    match apply_delta(o, d) {
        None => r == Err::<(), ExofsError>(ExofsError::Overflow) && n == o,
        Some(x) => r is Ok && n == x,
    }
}

/// `e` with new use counters.
pub open spec fn with_usage(e: SnapshotQuotaEntry, used_bytes: u64, used_blobs: u64) -> SnapshotQuotaEntry {
    SnapshotQuotaEntry { used_bytes, used_blobs, ..e }
}

/// The answer to a request for `bytes` and `blobs` in `snap_id`: the global
/// limits first, then the quota of the snapshot, else the default limit
/// applied to the bytes the snapshot holds in `l`.
pub open spec fn allocation_verdict(
    q: QuotaView,
    l: Seq<(u64, Snapshot)>,
    snap_id: SnapshotId,
    bytes: u64,
    blobs: u64,
) -> ExofsResult<()> {
    let p = q.policy;
    let m = map_of(q.entries);
    if p.max_total_bytes > 0 && q.used_bytes + bytes > u64::MAX {
        Err(ExofsError::Overflow)
    } else if p.max_total_bytes > 0 && q.used_bytes + bytes > p.max_total_bytes {
        Err(ExofsError::InvalidSize)
    } else if p.max_snap_count > 0 && q.snap_count >= p.max_snap_count {
        Err(ExofsError::BufferFull)
    } else if m.dom().contains(snap_id.0) {
        if may_allocate(m[snap_id.0], bytes, blobs) { Ok(()) } else { Err(ExofsError::InvalidSize) }
    } else if p.default_snap_max_bytes > 0 {
        if !has_key(l, snap_id.0) {
            Err(ExofsError::NotFound)
        } else if value_at(l, snap_id.0).total_bytes + bytes > u64::MAX {
            Err(ExofsError::Overflow)
        } else if value_at(l, snap_id.0).total_bytes + bytes > p.default_snap_max_bytes {
            Err(ExofsError::InvalidSize)
        } else {
            Ok(())
        }
    } else {
        Ok(())
    }
}

/// What `check_allocation` admits in a snapshot with a quota, `update_usage`
/// records within the limits: the use of the snapshot stays within each of
/// its limits, and the global use within the global limit.
pub proof fn lemma_admitted_fits(q: QuotaView, l: Seq<(u64, Snapshot)>, snap_id: SnapshotId, bytes: u64, blobs: u64)
    requires
        allocation_verdict(q, l, snap_id, bytes, blobs) is Ok,
        map_of(q.entries).dom().contains(snap_id.0),
        bytes <= i64::MAX,
        blobs <= i64::MAX,
    ensures
        ({
            let e = map_of(q.entries)[snap_id.0];
            &&& e.max_bytes > 0 ==> (apply_delta(e.used_bytes, bytes as i64) matches Some(nb) ==> nb <= e.max_bytes)
            &&& e.max_blobs > 0 ==> (apply_delta(e.used_blobs, blobs as i64) matches Some(nb) ==> nb <= e.max_blobs)
        }),
        q.policy.max_total_bytes > 0 ==> apply_delta(q.used_bytes, bytes as i64) == Some((q.used_bytes + bytes) as u64)
            && q.used_bytes + bytes <= q.policy.max_total_bytes,
{
}

/// Snapshots of the first `n` entries whose quota is exceeded.
pub open spec fn exceeded_upto(s: Seq<(u64, SnapshotQuotaEntry)>, n: int) -> Seq<SnapshotId>
    decreases n,
{
    if n <= 0 {
        Seq::empty()
    } else {
        let p = exceeded_upto(s, n - 1);
        if quota_exceeded(s[n - 1].1) { p.push(s[n - 1].1.snap_id) } else { p }
    }
}

/// `v` moved by `d` as `apply_delta` says.
fn add_delta(v: u64, d: i64) -> (r: Option<u64>)
    requires
        d > i64::MIN,
    ensures
        r == apply_delta(v, d),
{
    if d >= 0 {
        v.checked_add(d as u64)
    } else {
        let m: u64 = (-d) as u64;
        Some(v.saturating_sub(m))
    }
}

impl SnapshotQuotaTable {
    /// The keys are in increasing order.
    pub closed spec fn wf(&self) -> bool {
        self.entries.wf()
    }

    /// An empty table with no limit.
    pub fn new_const() -> (r: SnapshotQuotaTable)
        ensures
            r.wf(),
            r@ == (QuotaView {
                entries: Seq::empty(),
                policy: GlobalQuotaPolicy { max_total_bytes: 0, max_snap_count: 0, default_snap_max_bytes: 0 },
                used_bytes: 0,
                snap_count: 0,
            }),
    {
        SnapshotQuotaTable {
            entries: KeyedVec::new(),
            policy: GlobalQuotaPolicy { max_total_bytes: 0, max_snap_count: 0, default_snap_max_bytes: 0 },
            global_used_bytes: 0,
            global_snap_count: 0,
        }
    }

    /// Sets the global policy.
    pub fn set_policy(&mut self, p: GlobalQuotaPolicy)
        requires
            old(self).wf(),
        ensures
            final(self).wf(),
            final(self)@ == (QuotaView { policy: p, ..old(self)@ }),
    {
        self.policy = p;
    }

    /// The global policy.
    pub fn get_policy(&self) -> (r: GlobalQuotaPolicy)
        ensures
            r == self@.policy,
    {
        self.policy
    }

    /// Gives the snapshot `snap_id` of `list` a quota with nothing used and
    /// marks it in `list`.
    pub fn set(&mut self, list: &mut SnapshotList, snap_id: SnapshotId, max_bytes: u64, max_blobs: u64) -> (r: ExofsResult<()>)
        requires
            old(self).wf(),
            old(list).wf(),
        ensures
            final(self).wf(),
            final(list).wf(),
            !has_key(old(list)@.entries, snap_id.0) ==> r == Err::<(), ExofsError>(ExofsError::NotFound)
                && final(list)@ == old(list)@ && final(self)@ == old(self)@,
            has_key(old(list)@.entries, snap_id.0) ==> {
                &&& r is Ok
                &&& flags_set(old(list)@, final(list)@, snap_id.0, flags::QUOTA_SET, false)
                &&& map_of(final(self)@.entries) == map_of(old(self)@.entries).insert(
                    snap_id.0,
                    SnapshotQuotaEntry { snap_id, max_bytes, max_blobs, used_bytes: 0, used_blobs: 0 },
                )
                &&& final(self)@.policy == old(self)@.policy
                &&& final(self)@.used_bytes == old(self)@.used_bytes
                &&& final(self)@.snap_count == old(self)@.snap_count
            },
    {
        match list.get_ref(snap_id) {
            Ok(_) => {},
            Err(e) => return Err(e),
        }
        let entry = SnapshotQuotaEntry::new(snap_id, max_bytes, max_blobs);
        let _ = self.entries.insert(snap_id.0, entry);
        match list.set_flags(snap_id, flags::QUOTA_SET) {
            Ok(_) => {},
            Err(e) => return Err(e),
        }
        Ok(())
    }

    /// Takes the quota of `snap_id` away and unmarks it in `list`.
    pub fn remove(&mut self, list: &mut SnapshotList, snap_id: SnapshotId) -> (r: ExofsResult<()>)
        requires
            old(self).wf(),
            old(list).wf(),
        ensures
            final(self).wf(),
            final(list).wf(),
            !map_of(old(self)@.entries).dom().contains(snap_id.0) ==> r == Err::<(), ExofsError>(ExofsError::NotFound)
                && final(list)@ == old(list)@ && final(self)@ == old(self)@,
            map_of(old(self)@.entries).dom().contains(snap_id.0) ==> {
                &&& map_of(final(self)@.entries) == map_of(old(self)@.entries).remove(snap_id.0)
                &&& final(self)@.policy == old(self)@.policy
                &&& final(self)@.used_bytes == old(self)@.used_bytes
                &&& final(self)@.snap_count == old(self)@.snap_count
                &&& !has_key(old(list)@.entries, snap_id.0) ==> r == Err::<(), ExofsError>(ExofsError::NotFound)
                    && final(list)@ == old(list)@
                &&& has_key(old(list)@.entries, snap_id.0) ==> r is Ok
                    && flags_set(old(list)@, final(list)@, snap_id.0, flags::QUOTA_SET, true)
            },
    {
        match self.entries.remove(snap_id.0) {
            Some(_) => {},
            None => return Err(ExofsError::NotFound),
        }
        match list.clear_flags(snap_id, flags::QUOTA_SET) {
            Ok(_) => {},
            Err(e) => return Err(e),
        }
        Ok(())
    }

    /// Moves the use of `snap_id` (when it has a quota) and the global byte
    /// counter by the deltas; a negative delta stops at 0, a positive one
    /// that would pass `u64::MAX` is refused with `Overflow`.
    pub fn update_usage(&mut self, snap_id: SnapshotId, bytes_delta: i64, blobs_delta: i64) -> (r: ExofsResult<()>)
        requires
            old(self).wf(),
            bytes_delta > i64::MIN,
            blobs_delta > i64::MIN,
        ensures
            final(self).wf(),
            final(self)@.policy == old(self)@.policy,
            final(self)@.snap_count == old(self)@.snap_count,
            ({
                let m = map_of(old(self)@.entries);
                let k = snap_id.0;
                if m.dom().contains(k) {
                    let e = m[k];
                    match apply_delta(e.used_bytes, bytes_delta) {
                        None => r == Err::<(), ExofsError>(ExofsError::Overflow) && final(self)@ == old(self)@,
                        Some(nb) => match apply_delta(e.used_blobs, blobs_delta) {
                            None => r == Err::<(), ExofsError>(ExofsError::Overflow)
                                && map_of(final(self)@.entries) == m.insert(k, with_usage(e, nb, e.used_blobs))
                                && final(self)@.used_bytes == old(self)@.used_bytes,
                            Some(nbl) => map_of(final(self)@.entries) == m.insert(k, with_usage(e, nb, nbl))
                                && global_step(old(self)@.used_bytes, bytes_delta, final(self)@.used_bytes, r),
                        },
                    }
                } else {
                    final(self)@.entries == old(self)@.entries
                        && global_step(old(self)@.used_bytes, bytes_delta, final(self)@.used_bytes, r)
                }
            }),
    {
        match self.entries.get(snap_id.0) {
            Some(e) => {
                let nb = match add_delta(e.used_bytes, bytes_delta) {
                    Some(v) => v,
                    None => return Err(ExofsError::Overflow),
                };
                let mut upd = e;
                upd.used_bytes = nb;
                match add_delta(e.used_blobs, blobs_delta) {
                    Some(v) => {
                        upd.used_blobs = v;
                        let _ = self.entries.insert(snap_id.0, upd);
                    },
                    None => {
                        let _ = self.entries.insert(snap_id.0, upd);
                        return Err(ExofsError::Overflow);
                    },
                }
            },
            None => {},
        }
        match add_delta(self.global_used_bytes, bytes_delta) {
            Some(v) => {
                self.global_used_bytes = v;
                Ok(())
            },
            None => Err(ExofsError::Overflow),
        }
    }

    /// Checks a request for `bytes` and `blobs` in the snapshot `snap_id`
    /// of `list` against the global policy and the quotas.
    pub fn check_allocation(&self, list: &SnapshotList, snap_id: SnapshotId, bytes: u64, blobs: u64) -> (r: ExofsResult<()>)
        requires
            self.wf(),
            list.wf(),
        ensures
            r == allocation_verdict(self@, list@.entries, snap_id, bytes, blobs),
    {
        let policy = self.policy;
        if policy.max_total_bytes > 0 {
            let new_total = match self.global_used_bytes.checked_add(bytes) {
                Some(v) => v,
                None => return Err(ExofsError::Overflow),
            };
            if new_total > policy.max_total_bytes {
                return Err(ExofsError::InvalidSize);
            }
        }
        if policy.max_snap_count > 0 {
            if self.global_snap_count >= policy.max_snap_count {
                return Err(ExofsError::BufferFull);
            }
        }
        match self.entries.get(snap_id.0) {
            Some(entry) => {
                if !entry.can_allocate(bytes, blobs) {
                    return Err(ExofsError::InvalidSize);
                }
            },
            None => {
                if policy.default_snap_max_bytes > 0 {
                    let snap = match list.get(snap_id) {
                        Ok(s) => s,
                        Err(_) => return Err(ExofsError::NotFound),
                    };
                    proof {
                        list.lemma_wf();
                        let i = choose|i: int| 0 <= i < list@.entries.len() && (#[trigger] list@.entries[i]).0 == snap_id.0
                            && snap == list@.entries[i].1;
                        assert(keys_sorted(list@.entries));
                        lemma_value_at(list@.entries, i);
                    }
                    let new_bytes = match snap.total_bytes.checked_add(bytes) {
                        Some(v) => v,
                        None => return Err(ExofsError::Overflow),
                    };
                    if new_bytes > policy.default_snap_max_bytes {
                        return Err(ExofsError::InvalidSize);
                    }
                }
            },
        }
        Ok(())
    }

    /// Snapshots whose quota is exceeded, in key order.
    pub fn exceeded_snapshots(&self) -> (r: ExofsResult<Vec<SnapshotId>>)
        ensures
            r matches Ok(v) && v@ == exceeded_upto(self@.entries, self@.entries.len() as int),
    {
        let mut out: Vec<SnapshotId> = Vec::new();
        let mut i: usize = 0;
        while i < self.entries.len()
            invariant
                0 <= i <= self.entries@.len(),
                out@ == exceeded_upto(self.entries@, i as int),
            decreases self.entries@.len() - i,
        {
            let e = self.entries.at(i).1;
            if e.is_exceeded() {
                out.push(e.snap_id);
            }
            i += 1;
        }
        Ok(out)
    }

    /// The quota of `snap_id`.
    pub fn get(&self, snap_id: SnapshotId) -> (r: Option<SnapshotQuotaEntry>)
        requires
            self.wf(),
        ensures
            r == (if map_of(self@.entries).dom().contains(snap_id.0) { Some(map_of(self@.entries)[snap_id.0]) } else { None }),
    {
        self.entries.get(snap_id.0)
    }

    /// Every quota, in key order.
    pub fn all_entries(&self) -> (r: ExofsResult<Vec<SnapshotQuotaEntry>>)
        ensures
            r matches Ok(v) && v@ == self@.entries.map_values(|e: (u64, SnapshotQuotaEntry)| e.1),
    {
        let mut out: Vec<SnapshotQuotaEntry> = Vec::new();
        let mut i: usize = 0;
        while i < self.entries.len()
            invariant
                0 <= i <= self.entries@.len(),
                out@ == self.entries@.subrange(0, i as int).map_values(|e: (u64, SnapshotQuotaEntry)| e.1),
            decreases self.entries@.len() - i,
        {
            out.push(self.entries.at(i).1);
            i += 1;
            proof {
                assert(self.entries@.subrange(0, i as int) =~= self.entries@.subrange(0, i - 1).push(self.entries@[i - 1]));
            }
        }
        proof {
            assert(self.entries@.subrange(0, i as int) =~= self.entries@);
        }
        Ok(out)
    }

    /// Bytes counted over all snapshots.
    pub fn global_used_bytes(&self) -> (r: u64)
        ensures
            r == self@.used_bytes,
    {
        self.global_used_bytes
    }

    /// Snapshots counted.
    pub fn global_snap_count(&self) -> (r: usize)
        ensures
            r == self@.snap_count,
    {
        self.global_snap_count
    }

    /// Counts one more snapshot, unless the policy's count is reached.
    pub fn register_snap_creation(&mut self) -> (r: ExofsResult<()>)
        requires
            old(self).wf(),
        ensures
            final(self).wf(),
            old(self)@.policy.max_snap_count > 0 && old(self)@.snap_count >= old(self)@.policy.max_snap_count
                ==> r == Err::<(), ExofsError>(ExofsError::BufferFull) && final(self)@ == old(self)@,
            !(old(self)@.policy.max_snap_count > 0 && old(self)@.snap_count >= old(self)@.policy.max_snap_count)
                ==> r is Ok && final(self)@ == (QuotaView {
                    snap_count: if old(self)@.snap_count == usize::MAX { 0 } else { (old(self)@.snap_count + 1) as usize },
                    ..old(self)@
                }),
    {
        let policy = self.policy;
        if policy.max_snap_count > 0 {
            if self.global_snap_count >= policy.max_snap_count {
                return Err(ExofsError::BufferFull);
            }
        }
        self.global_snap_count = self.global_snap_count.wrapping_add(1);
        Ok(())
    }

    /// Counts one snapshot less, stopping at 0.
    pub fn register_snap_deletion(&mut self)
        requires
            old(self).wf(),
        ensures
            final(self).wf(),
            final(self)@ == (QuotaView {
                snap_count: if old(self)@.snap_count == 0 { 0 } else { (old(self)@.snap_count - 1) as usize },
                ..old(self)@
            }),
    {
        self.global_snap_count = self.global_snap_count.saturating_sub(1);
    }

    /// Removes every quota and zeroes the counters; the policy stays.
    pub fn clear(&mut self)
        requires
            old(self).wf(),
        ensures
            final(self).wf(),
            final(self)@ == (QuotaView { entries: Seq::empty(), used_bytes: 0, snap_count: 0, ..old(self)@ }),
    {
        self.entries.clear();
        self.global_used_bytes = 0;
        self.global_snap_count = 0;
    }
}

/// A quota is exceeded exactly when it would refuse even an allocation of
/// nothing: its bytes or its blobs are over a limit that is set. So a
/// quota whose blobs outnumber its blob limit is exceeded, whatever its
/// bytes.
pub proof fn lemma_exceeded_iff_nothing_fits(e: SnapshotQuotaEntry)
    ensures
        quota_exceeded(e) <==> !may_allocate(e, 0, 0),
        e.max_blobs > 0 && e.used_blobs > e.max_blobs ==> quota_exceeded(e),
        e.max_bytes > 0 && e.used_bytes > e.max_bytes ==> quota_exceeded(e),
        e.used_bytes <= e.max_bytes && e.used_blobs <= e.max_blobs ==> !quota_exceeded(e),
{
}

/// The exceeded snapshots of a table are listed: the id of every exceeded
/// entry among the first `n`, and only ids of exceeded entries.
pub proof fn lemma_exceeded_listed(s: Seq<(u64, SnapshotQuotaEntry)>, n: int)
    requires
        0 <= n <= s.len(),
    ensures
        forall|i: int| 0 <= i < n && quota_exceeded(#[trigger] s[i].1) ==> exceeded_upto(s, n).contains(s[i].1.snap_id),
        forall|id: SnapshotId| #[trigger] exceeded_upto(s, n).contains(id) ==> exists|i: int| 0 <= i < n
            && quota_exceeded((#[trigger] s[i]).1) && s[i].1.snap_id == id,
    decreases n,
{
    if n == 0 {
        assert(exceeded_upto(s, n).len() == 0);
    } else {
        lemma_exceeded_listed(s, n - 1);
        let p = exceeded_upto(s, n - 1);
        assert forall|i: int| 0 <= i < n && quota_exceeded(#[trigger] s[i].1) implies exceeded_upto(s, n).contains(s[i].1.snap_id) by {
            if i < n - 1 {
                let k = choose|k: int| 0 <= k < p.len() && p[k] == s[i].1.snap_id;
                if quota_exceeded(s[n - 1].1) {
                    assert(exceeded_upto(s, n)[k] == p[k]);
                }
            } else {
                assert(exceeded_upto(s, n)[exceeded_upto(s, n).len() - 1] == s[n - 1].1.snap_id);
            }
        }
        assert forall|id: SnapshotId| #[trigger] exceeded_upto(s, n).contains(id) implies exists|i: int| 0 <= i < n
            && quota_exceeded((#[trigger] s[i]).1) && s[i].1.snap_id == id by {
            let k = choose|k: int| 0 <= k < exceeded_upto(s, n).len() && exceeded_upto(s, n)[k] == id;
            if k < p.len() {
                assert(exceeded_upto(s, n)[k] == p[k]);
                assert(p.contains(id));
            } else {
                assert(quota_exceeded(s[n - 1].1) && s[n - 1].1.snap_id == id);
            }
        }
    }
}

/// A quota that allows an allocation allows any smaller one, and one with
/// no limit set allows everything.
pub proof fn lemma_may_allocate_monotone(e: SnapshotQuotaEntry, bytes: u64, blobs: u64, bytes2: u64, blobs2: u64)
    requires
        bytes2 <= bytes,
        blobs2 <= blobs,
    ensures
        may_allocate(e, bytes, blobs) ==> may_allocate(e, bytes2, blobs2),
        e.max_bytes == 0 && e.max_blobs == 0 ==> may_allocate(e, bytes, blobs),
{
}

} // verus!
