//! The registry of the snapshots in memory, kept in the order of their keys,
//! with a count and a byte total recorded beside it.
use vstd::prelude::*;
use crate::types::{ExofsError, ExofsResult, SnapshotId};
use crate::snapshot::snapshot::{flags, ref_of, Snapshot, SnapshotRef, SNAPSHOT_MAX_COUNT, SNAPSHOT_NAME_LEN};

verus! {

/// Keys strictly increasing.
pub open spec fn keys_sorted(s: Seq<(u64, Snapshot)>) -> bool {
    forall|i: int, j: int| 0 <= i < j < s.len() ==> (#[trigger] s[i]).0 < (#[trigger] s[j]).0
}

/// Every entry is keyed by the id of its snapshot.
pub open spec fn keyed_by_id(s: Seq<(u64, Snapshot)>) -> bool {
    forall|i: int| 0 <= i < s.len() ==> (#[trigger] s[i]).1.id.0 == s[i].0
}

/// Some entry has key `k`.
pub open spec fn has_key(s: Seq<(u64, Snapshot)>, k: u64) -> bool {
    exists|i: int| 0 <= i < s.len() && (#[trigger] s[i]).0 == k
}

/// Index of the entry of key `k`.
pub open spec fn index_of(s: Seq<(u64, Snapshot)>, k: u64) -> int {
    choose|i: int| 0 <= i < s.len() && s[i].0 == k
}

/// Index of the first entry of key `k`.
pub open spec fn first_of(s: Seq<(u64, Snapshot)>, k: u64) -> int {
    choose|i: int| 0 <= i < s.len() && s[i].0 == k && forall|j: int| 0 <= j < i ==> (#[trigger] s[j]).0 != k
}

/// Saturating sum of the byte totals of the first `n` entries.
pub open spec fn bytes_upto(s: Seq<(u64, Snapshot)>, n: int) -> u64
    decreases n,
{
    if n <= 0 {
        0
    } else {
        let a = bytes_upto(s, n - 1) + s[n - 1].1.total_bytes;
        if a > u64::MAX { u64::MAX } else { a as u64 }
    }
}

/// State of a registry.
pub struct SnapshotListView {
    pub entries: Seq<(u64, Snapshot)>,
    pub next_id: u64,
    /// Recorded count.
    pub count: usize,
    /// Recorded byte total.
    pub total_bytes: u64,
}

/// Registry of the snapshots in memory.
pub struct SnapshotList {
    entries: Vec<(u64, Snapshot)>,
    next_id: u64,
    count: usize,
    total_bytes: u64,
}

impl View for SnapshotList {
    type V = SnapshotListView;

    closed spec fn view(&self) -> SnapshotListView {
        SnapshotListView { entries: self.entries@, next_id: self.next_id, count: self.count, total_bytes: self.total_bytes }
    }
}

/// Ids of the snapshots whose parent is `parent`, among the first `n` entries.
pub open spec fn children_upto(s: Seq<(u64, Snapshot)>, parent: SnapshotId, n: int) -> Seq<SnapshotId>
    decreases n,
{
    if n <= 0 {
        Seq::empty()
    } else {
        let p = children_upto(s, parent, n - 1);
        if s[n - 1].1.parent_id == Some(parent) { p.push(s[n - 1].1.id) } else { p }
    }
}

/// Metadata of the snapshots older than `max_age` at `now`, among the first `n` entries.
pub open spec fn older_upto(s: Seq<(u64, Snapshot)>, now: u64, max_age: u64, n: int) -> Seq<SnapshotRef>
    decreases n,
{
    if n <= 0 {
        Seq::empty()
    } else {
        let p = older_upto(s, now, max_age, n - 1);
        let c = s[n - 1].1.created_at;
        let age = if now >= c { now - c } else { 0 };
        if age > max_age { p.push(ref_of(s[n - 1].1)) } else { p }
    }
}

/// The name `n` matches `name`: the first bytes are those of `name` (cut to
/// the name size) and the rest are zero.
pub open spec fn name_matches(n: Seq<u8>, name: Seq<u8>) -> bool {
    let len = if name.len() < 128 { name.len() as int } else { 128 };
    &&& n.subrange(0, len) == name.subrange(0, len)
    &&& forall|i: int| len <= i < 128 ==> n[i] == 0
}

/// Tally of the registry.
#[derive(Clone, Copy, Debug)]
pub struct ListStats {
    pub count: usize,
    pub total_bytes: u64,
    pub oldest_created_at: u64,
    pub newest_created_at: u64,
    pub n_protected: usize,
    pub n_readonly: usize,
    pub n_orphan: usize,
    pub max_blobs_in_one: u64,
    pub max_bytes_in_one: u64,
}

impl Default for ListStats {
    fn default() -> (r: ListStats)
        ensures
            r == (ListStats {
                count: 0,
                total_bytes: 0,
                oldest_created_at: 0,
                newest_created_at: 0,
                n_protected: 0,
                n_readonly: 0,
                n_orphan: 0,
                max_blobs_in_one: 0,
                max_bytes_in_one: 0,
            }),
    {
        ListStats {
            count: 0,
            total_bytes: 0,
            oldest_created_at: 0,
            newest_created_at: 0,
            n_protected: 0,
            n_readonly: 0,
            n_orphan: 0,
            max_blobs_in_one: 0,
            max_bytes_in_one: 0,
        }
    }
}

/// The tally of the first `n` entries, as `stats` builds it: the count is
/// that of all the entries, the oldest and newest times the smallest and
/// largest creation times among them.
pub open spec fn stats_upto(s: Seq<(u64, Snapshot)>, n: int) -> ListStats
    decreases n,
{
    if n <= 0 {
        ListStats {
            count: s.len() as usize,
            total_bytes: 0,
            oldest_created_at: 0,
            newest_created_at: 0,
            n_protected: 0,
            n_readonly: 0,
            n_orphan: 0,
            max_blobs_in_one: 0,
            max_bytes_in_one: 0,
        }
    } else {
        let p = stats_upto(s, n - 1);
        let x = s[n - 1].1;
        let t = p.total_bytes + x.total_bytes;
        ListStats {
            count: p.count,
            total_bytes: if t > u64::MAX { u64::MAX } else { t as u64 },
            oldest_created_at: if n == 1 || x.created_at < p.oldest_created_at { x.created_at } else { p.oldest_created_at },
            newest_created_at: if x.created_at > p.newest_created_at { x.created_at } else { p.newest_created_at },
            n_protected: if x.flags & flags::PROTECTED != 0 { (p.n_protected + 1) as usize } else { p.n_protected },
            n_readonly: if x.flags & flags::READONLY != 0 { (p.n_readonly + 1) as usize } else { p.n_readonly },
            n_orphan: if x.flags & flags::ORPHAN != 0 { (p.n_orphan + 1) as usize } else { p.n_orphan },
            max_blobs_in_one: if x.n_blobs > p.max_blobs_in_one { x.n_blobs } else { p.max_blobs_in_one },
            max_bytes_in_one: if x.total_bytes > p.max_bytes_in_one { x.total_bytes } else { p.max_bytes_in_one },
        }
    }
}

/// The oldest time of a tally is the creation time of one of its entries,
/// and no entry is older; no entry is newer than its newest time.
pub proof fn lemma_stats_times(s: Seq<(u64, Snapshot)>, n: int)
    requires
        0 < n <= s.len(),
    ensures
        exists|j: int| 0 <= j < n && (#[trigger] s[j]).1.created_at == stats_upto(s, n).oldest_created_at,
        forall|j: int| 0 <= j < n ==> stats_upto(s, n).oldest_created_at <= (#[trigger] s[j]).1.created_at
            <= stats_upto(s, n).newest_created_at,
    decreases n,
{
    let r = stats_upto(s, n);
    if n > 1 {
        lemma_stats_times(s, n - 1);
        let p = stats_upto(s, n - 1);
        assert forall|j: int| 0 <= j < n implies r.oldest_created_at <= (#[trigger] s[j]).1.created_at <= r.newest_created_at by {
            if j < n - 1 {
                assert(p.oldest_created_at <= s[j].1.created_at <= p.newest_created_at);
            }
        }
        if r.oldest_created_at == s[n - 1].1.created_at {
            assert(s[n - 1].1.created_at == r.oldest_created_at);
        } else {
            let j = choose|j: int| 0 <= j < n - 1 && (#[trigger] s[j]).1.created_at == p.oldest_created_at;
            assert(s[j].1.created_at == r.oldest_created_at);
        }
    } else {
        assert(s[0].1.created_at == r.oldest_created_at);
    }
}

/// The registry once the entry at index `i` is taken out: the recorded
/// count drops by one (wrapping) and the byte total by its size (clamped
/// at 0).
pub open spec fn list_removed(l: SnapshotListView, i: int) -> SnapshotListView {
    SnapshotListView {
        entries: l.entries.remove(i),
        count: if l.count == 0 { usize::MAX } else { (l.count - 1) as usize },
        total_bytes: if l.total_bytes >= l.entries[i].1.total_bytes {
            (l.total_bytes - l.entries[i].1.total_bytes) as u64
        } else {
            0
        },
        ..l
    }
}

/// The recorded count or byte total differs from the entries.
#[derive(Debug)]
pub enum ListConsistencyError {
    CountMismatch { recorded: usize, actual: usize },
    BytesMismatch { recorded: u64, actual: u64 },
}

impl SnapshotList {
    /// The keys are in increasing order.
    pub closed spec fn wf(&self) -> bool {
        &&& keys_sorted(self.entries@)
        &&& keyed_by_id(self.entries@)
    }

    /// A well-formed registry has its keys in increasing order, each the id
    /// of its snapshot.
    pub proof fn lemma_wf(&self)
        requires
            self.wf(),
        ensures
            keys_sorted(self@.entries),
            keyed_by_id(self@.entries),
    {
    }

    /// An empty registry; ids are given from 1.
    pub fn new_const() -> (r: SnapshotList)
        ensures
            r.wf(),
            r@ == (SnapshotListView { entries: Seq::empty(), next_id: 1, count: 0, total_bytes: 0 }),
    {
        SnapshotList { entries: Vec::new(), next_id: 1, count: 0, total_bytes: 0 }
    }

    /// Hands out the next id; 0 is skipped.
    pub fn allocate_id(&mut self) -> (r: ExofsResult<SnapshotId>)
        ensures
            old(self).wf() ==> final(self).wf(),
            final(self)@.entries == old(self)@.entries && final(self)@.count == old(self)@.count,
            final(self)@.total_bytes == old(self)@.total_bytes,
            old(self)@.next_id == 0 ==> r == Ok::<SnapshotId, ExofsError>(SnapshotId(1)) && final(self)@.next_id == 2,
            old(self)@.next_id != 0 ==> r == Ok::<SnapshotId, ExofsError>(SnapshotId(old(self)@.next_id))
                && final(self)@.next_id == (if old(self)@.next_id == u64::MAX { 0 } else { old(self)@.next_id + 1 }),
    {
        let raw = self.next_id;
        self.next_id = self.next_id.wrapping_add(1);
        if raw == 0 {
            self.next_id = self.next_id.wrapping_add(1);
            return Ok(SnapshotId(1));
        }
        Ok(SnapshotId(raw))
    }

    /// Index of the entry of key `k`, if any.
    fn find(&self, k: u64) -> (r: Option<usize>)
        ensures
            r is None ==> !has_key(self@.entries, k),
            r matches Some(i) ==> i < self@.entries.len() && self@.entries[i as int].0 == k && i == first_of(self@.entries, k),
    {
        let mut i: usize = 0;
        while i < self.entries.len()
            invariant
                0 <= i <= self.entries@.len(),
                forall|j: int| 0 <= j < i ==> (#[trigger] self.entries@[j]).0 != k,
            decreases self.entries.len() - i,
        {
            if self.entries[i].0 == k {
                proof {
                    let f = first_of(self@.entries, k);
                    assert(0 <= i < self@.entries.len() && self@.entries[i as int].0 == k
                        && forall|j: int| 0 <= j < i ==> (#[trigger] self@.entries[j]).0 != k);
                    if f != i {
                        if f < i {
                            assert(self@.entries[f].0 != k);
                        } else {
                            assert(self@.entries[i as int].0 != k);
                        }
                    }
                }
                return Some(i);
            }
            i += 1;
        }
        None
    }

    /// Adds `snap` under its id. Refused, with nothing changed, when the
    /// recorded count is at the limit, the id is taken, or the byte total
    /// would overflow.
    pub fn register(&mut self, snap: Snapshot) -> (r: ExofsResult<()>)
        requires
            old(self).wf(),
        ensures
            final(self).wf(),
            final(self)@.next_id == old(self)@.next_id,
            old(self)@.count >= SNAPSHOT_MAX_COUNT ==> r == Err::<(), ExofsError>(ExofsError::BufferFull) && final(self)@ == old(self)@,
            old(self)@.count < SNAPSHOT_MAX_COUNT && has_key(old(self)@.entries, snap.id.0)
                ==> r == Err::<(), ExofsError>(ExofsError::InvalidState) && final(self)@ == old(self)@,
            old(self)@.count < SNAPSHOT_MAX_COUNT && !has_key(old(self)@.entries, snap.id.0)
                && old(self)@.total_bytes + snap.total_bytes > u64::MAX
                ==> r == Err::<(), ExofsError>(ExofsError::Overflow) && final(self)@ == old(self)@,
            old(self)@.count < SNAPSHOT_MAX_COUNT && !has_key(old(self)@.entries, snap.id.0)
                && old(self)@.total_bytes + snap.total_bytes <= u64::MAX ==> {
                &&& r is Ok
                &&& exists|p: int| 0 <= p <= old(self)@.entries.len()
                    && (forall|i: int| 0 <= i < p ==> (#[trigger] old(self)@.entries[i]).0 < snap.id.0)
                    && (forall|i: int| p <= i < old(self)@.entries.len() ==> (#[trigger] old(self)@.entries[i]).0 > snap.id.0)
                    && final(self)@.entries == old(self)@.entries.insert(p, (snap.id.0, snap))
                &&& final(self)@.count == old(self)@.count + 1
                &&& final(self)@.total_bytes == old(self)@.total_bytes + snap.total_bytes
            },
    {
        if self.count >= SNAPSHOT_MAX_COUNT {
            return Err(ExofsError::BufferFull);
        }
        let k = snap.id.0;
        if self.find(k).is_some() {
            return Err(ExofsError::InvalidState);
        }
        let new_total = match self.total_bytes.checked_add(snap.total_bytes) {
            Some(t) => t,
            None => return Err(ExofsError::Overflow),
        };
        let mut p: usize = 0;
        while p < self.entries.len() && self.entries[p].0 < k
            invariant
                0 <= p <= self.entries@.len(),
                forall|i: int| 0 <= i < p ==> (#[trigger] self.entries@[i]).0 < k,
            decreases self.entries.len() - p,
        {
            p += 1;
        }
        proof {
            assert forall|i: int| p <= i < self.entries@.len() implies (#[trigger] self.entries@[i]).0 > k by {
                if p < self.entries@.len() {
                    assert(self.entries@[p as int].0 >= k);
                    assert(self.entries@[p as int].0 != k);
                    if i > p {
                        assert(self.entries@[p as int].0 < self.entries@[i].0);
                    }
                }
            }
        }
        let ghost before = self.entries@;
        self.entries.insert(p, (k, snap));
        proof {
            assert forall|i: int, j: int| 0 <= i < j < self.entries@.len() implies (#[trigger] self.entries@[i]).0
                < (#[trigger] self.entries@[j]).0 by {
                if j < p {
                    assert(self.entries@[i] == before[i] && self.entries@[j] == before[j]);
                } else if j == p {
                    assert(self.entries@[i] == before[i]);
                } else if i < p {
                    assert(self.entries@[i] == before[i] && self.entries@[j] == before[j - 1]);
                } else if i == p {
                    assert(self.entries@[j] == before[j - 1]);
                } else {
                    assert(self.entries@[i] == before[i - 1] && self.entries@[j] == before[j - 1]);
                }
            }
        }
        self.count = self.count + 1;
        self.total_bytes = new_total;
        Ok(())
    }

    /// Takes out the snapshot of `id`; the recorded count drops by one
    /// (wrapping) and the byte total by its size (clamped at 0).
    pub fn remove(&mut self, id: SnapshotId) -> (r: ExofsResult<Snapshot>)
        requires
            old(self).wf(),
        ensures
            final(self).wf(),
            final(self)@.next_id == old(self)@.next_id,
            !has_key(old(self)@.entries, id.0) ==> r == Err::<Snapshot, ExofsError>(ExofsError::NotFound) && final(self)@ == old(self)@,
            forall|i: int| 0 <= i < old(self)@.entries.len() && (#[trigger] old(self)@.entries[i]).0 == id.0 ==> {
                &&& r == Ok::<Snapshot, ExofsError>(old(self)@.entries[i].1)
                &&& final(self)@ == list_removed(old(self)@, i)
            },
    {
        let i = match self.find(id.0) {
            Some(i) => i,
            None => return Err(ExofsError::NotFound),
        };
        let ghost before = self.entries@;
        let (_, snap) = self.entries.remove(i);
        proof {
            assert forall|a: int, b: int| 0 <= a < b < self.entries@.len() implies (#[trigger] self.entries@[a]).0
                < (#[trigger] self.entries@[b]).0 by {
                if b < i {
                    assert(self.entries@[a] == before[a] && self.entries@[b] == before[b]);
                } else if a < i {
                    assert(self.entries@[a] == before[a] && self.entries@[b] == before[b + 1]);
                } else {
                    assert(self.entries@[a] == before[a + 1] && self.entries@[b] == before[b + 1]);
                }
            }
            assert forall|j: int| 0 <= j < before.len() && (#[trigger] before[j]).0 == id.0 implies j == i by {
                if j < i {
                    assert(before[j].0 < before[i as int].0);
                } else if j > i {
                    assert(before[i as int].0 < before[j].0);
                }
            }
        }
        self.count = self.count.wrapping_sub(1);
        self.total_bytes = self.total_bytes.saturating_sub(snap.total_bytes);
        Ok(snap)
    }

    /// The snapshot of `id`.
    pub fn get(&self, id: SnapshotId) -> (r: ExofsResult<Snapshot>)
        ensures
            !has_key(self@.entries, id.0) ==> r == Err::<Snapshot, ExofsError>(ExofsError::NotFound),
            has_key(self@.entries, id.0) ==> r is Ok,
            r matches Ok(s) ==> exists|i: int| 0 <= i < self@.entries.len() && (#[trigger] self@.entries[i]).0 == id.0
                && s == self@.entries[i].1,
            r matches Ok(s) ==> s == self@.entries[first_of(self@.entries, id.0)].1,
    {
        match self.find(id.0) {
            Some(i) => Ok(self.entries[i].1),
            None => Err(ExofsError::NotFound),
        }
    }

    /// The metadata of the snapshot of `id`.
    pub fn get_ref(&self, id: SnapshotId) -> (r: ExofsResult<SnapshotRef>)
        ensures
            !has_key(self@.entries, id.0) ==> r == Err::<SnapshotRef, ExofsError>(ExofsError::NotFound),
            has_key(self@.entries, id.0) ==> r is Ok,
            r matches Ok(s) ==> exists|i: int| 0 <= i < self@.entries.len() && (#[trigger] self@.entries[i]).0 == id.0
                && s == ref_of(self@.entries[i].1),
    {
        match self.find(id.0) {
            Some(i) => Ok(SnapshotRef::from(&self.entries[i].1)),
            None => Err(ExofsError::NotFound),
        }
    }

    /// The metadata of the first snapshot, in key order, named `name`.
    pub fn find_by_name(&self, name: &[u8]) -> (r: Option<SnapshotRef>)
        ensures
            r is None ==> forall|i: int| 0 <= i < self@.entries.len() ==> !name_matches((#[trigger] self@.entries[i]).1.name@, name@),
            r matches Some(x) ==> exists|i: int| 0 <= i < self@.entries.len() && x == ref_of((#[trigger] self@.entries[i]).1)
                && name_matches(self@.entries[i].1.name@, name@)
                && forall|j: int| 0 <= j < i ==> !name_matches((#[trigger] self@.entries[j]).1.name@, name@),
    {
        let len: usize = if name.len() < SNAPSHOT_NAME_LEN { name.len() } else { SNAPSHOT_NAME_LEN };
        let mut i: usize = 0;
        while i < self.entries.len()
            invariant
                0 <= i <= self.entries@.len(),
                len == (if name@.len() < 128 { name@.len() as int } else { 128 }),
                forall|j: int| 0 <= j < i ==> !name_matches((#[trigger] self.entries@[j]).1.name@, name@),
            decreases self.entries.len() - i,
        {
            let n = &self.entries[i].1.name;
            let mut same = true;
            let mut k: usize = 0;
            while k < 128
                invariant
                    0 <= k <= 128,
                    len <= 128,
                    len <= name@.len(),
                    n@.len() == 128,
                    same == ((forall|m: int| 0 <= m < k && m < len ==> n@[m] == name@[m]) && (forall|m: int| len <= m < k ==> n@[m] == 0)),
                decreases 128 - k,
            {
                if k < len {
                    if n[k] != name[k] {
                        same = false;
                    }
                } else if n[k] != 0 {
                    same = false;
                }
                k += 1;
            }
            proof {
                if same {
                    assert(n@.subrange(0, len as int) =~= name@.subrange(0, len as int));
                } else if n@.subrange(0, len as int) == name@.subrange(0, len as int) {
                    assert forall|m: int| 0 <= m < len implies n@[m] == name@[m] by {
                        assert(n@.subrange(0, len as int)[m] == name@.subrange(0, len as int)[m]);
                    }
                }
            }
            if same {
                return Some(SnapshotRef::from(&self.entries[i].1));
            }
            i += 1;
        }
        None
    }

    /// ORs `flags` into the flags of the snapshot of `id`.
    pub fn set_flags(&mut self, id: SnapshotId, flags: u32) -> (r: ExofsResult<()>)
        requires
            old(self).wf(),
        ensures
            final(self).wf(),
            !has_key(old(self)@.entries, id.0) ==> r == Err::<(), ExofsError>(ExofsError::NotFound) && final(self)@ == old(self)@,
            forall|i: int| 0 <= i < old(self)@.entries.len() && (#[trigger] old(self)@.entries[i]).0 == id.0 ==> r is Ok
                && final(self)@ == (SnapshotListView {
                    entries: old(self)@.entries.update(i, (id.0, Snapshot { flags: old(self)@.entries[i].1.flags | flags, ..old(self)@.entries[i].1 })),
                    ..old(self)@
                }),
    {
        self.update_flags(id, flags, true)
    }

    /// Clears `flags` in the flags of the snapshot of `id`.
    pub fn clear_flags(&mut self, id: SnapshotId, flags: u32) -> (r: ExofsResult<()>)
        requires
            old(self).wf(),
        ensures
            final(self).wf(),
            !has_key(old(self)@.entries, id.0) ==> r == Err::<(), ExofsError>(ExofsError::NotFound) && final(self)@ == old(self)@,
            forall|i: int| 0 <= i < old(self)@.entries.len() && (#[trigger] old(self)@.entries[i]).0 == id.0 ==> r is Ok
                && final(self)@ == (SnapshotListView {
                    entries: old(self)@.entries.update(i, (id.0, Snapshot { flags: old(self)@.entries[i].1.flags & !flags, ..old(self)@.entries[i].1 })),
                    ..old(self)@
                }),
    {
        self.update_flags(id, flags, false)
    }

    fn update_flags(&mut self, id: SnapshotId, flags: u32, set: bool) -> (r: ExofsResult<()>)
        requires
            old(self).wf(),
        ensures
            final(self).wf(),
            !has_key(old(self)@.entries, id.0) ==> r == Err::<(), ExofsError>(ExofsError::NotFound) && final(self)@ == old(self)@,
            forall|i: int| 0 <= i < old(self)@.entries.len() && (#[trigger] old(self)@.entries[i]).0 == id.0 ==> r is Ok
                && final(self)@ == (SnapshotListView {
                    entries: old(self)@.entries.update(i, (id.0, Snapshot {
                        flags: if set { old(self)@.entries[i].1.flags | flags } else { old(self)@.entries[i].1.flags & !flags },
                        ..old(self)@.entries[i].1
                    })),
                    ..old(self)@
                }),
    {
        let i = match self.find(id.0) {
            Some(i) => i,
            None => return Err(ExofsError::NotFound),
        };
        let mut s = self.entries[i].1;
        s.flags = if set { s.flags | flags } else { s.flags & !flags };
        let ghost before = self.entries@;
        self.entries.set(i, (id.0, s));
        proof {
            assert forall|j: int| 0 <= j < before.len() && (#[trigger] before[j]).0 == id.0 implies j == i by {
                if j < i {
                    assert(before[j].0 < before[i as int].0);
                } else if j > i {
                    assert(before[i as int].0 < before[j].0);
                }
            }
            assert forall|a: int, b: int| 0 <= a < b < self.entries@.len() implies (#[trigger] self.entries@[a]).0
                < (#[trigger] self.entries@[b]).0 by {
                assert(before[a].0 < before[b].0);
            }
        }
        Ok(())
    }

    /// The keys, in increasing order.
    pub fn all_ids(&self) -> (r: ExofsResult<Vec<SnapshotId>>)
        ensures
            r matches Ok(v) && v@ == self@.entries.map_values(|e: (u64, Snapshot)| SnapshotId(e.0)),
    {
        let mut out: Vec<SnapshotId> = Vec::new();
        let mut i: usize = 0;
        while i < self.entries.len()
            invariant
                0 <= i <= self.entries@.len(),
                out@ == self.entries@.subrange(0, i as int).map_values(|e: (u64, Snapshot)| SnapshotId(e.0)),
            decreases self.entries.len() - i,
        {
            out.push(SnapshotId(self.entries[i].0));
            proof {
                assert(self.entries@.subrange(0, i + 1).map_values(|e: (u64, Snapshot)| SnapshotId(e.0))
                    =~= self.entries@.subrange(0, i as int).map_values(|e: (u64, Snapshot)| SnapshotId(e.0)).push(SnapshotId(self.entries@[i as int].0)));
            }
            i += 1;
        }
        proof {
            assert(self.entries@.subrange(0, i as int) =~= self.entries@);
        }
        Ok(out)
    }

    /// The metadata of every snapshot, in key order.
    pub fn all_refs(&self) -> (r: ExofsResult<Vec<SnapshotRef>>)
        ensures
            r matches Ok(v) && v@ == self@.entries.map_values(|e: (u64, Snapshot)| ref_of(e.1)),
            self.wf() ==> (r matches Ok(v) && forall|i: int, j: int| 0 <= i < j < v@.len() ==> (#[trigger] v@[i]).id.0 < (#[trigger] v@[j]).id.0),
    {
        proof {
            if self.wf() {
                self.lemma_wf();
            }
        }
        let mut out: Vec<SnapshotRef> = Vec::new();
        let mut i: usize = 0;
        while i < self.entries.len()
            invariant
                0 <= i <= self.entries@.len(),
                out@ == self.entries@.subrange(0, i as int).map_values(|e: (u64, Snapshot)| ref_of(e.1)),
            decreases self.entries.len() - i,
        {
            out.push(SnapshotRef::from(&self.entries[i].1));
            proof {
                assert(self.entries@.subrange(0, i + 1).map_values(|e: (u64, Snapshot)| ref_of(e.1))
                    =~= self.entries@.subrange(0, i as int).map_values(|e: (u64, Snapshot)| ref_of(e.1)).push(ref_of(self.entries@[i as int].1)));
            }
            i += 1;
        }
        proof {
            assert(self.entries@.subrange(0, i as int) =~= self.entries@);
        }
        Ok(out)
    }

    /// Ids of the snapshots whose parent is `parent_id`, in key order.
    pub fn children_of(&self, parent_id: SnapshotId) -> (r: ExofsResult<Vec<SnapshotId>>)
        ensures
            r matches Ok(v) && v@ == children_upto(self@.entries, parent_id, self@.entries.len() as int),
    {
        let mut out: Vec<SnapshotId> = Vec::new();
        let mut i: usize = 0;
        while i < self.entries.len()
            invariant
                0 <= i <= self.entries@.len(),
                out@ == children_upto(self.entries@, parent_id, i as int),
            decreases self.entries.len() - i,
        {
            let s = self.entries[i].1;
            let is_child = match s.parent_id {
                Some(p) => p.0 == parent_id.0,
                None => false,
            };
            if is_child {
                out.push(s.id);
            }
            i += 1;
        }
        Ok(out)
    }

    /// Metadata of the snapshots older than `max_age_ticks` at `now`, in key order.
    pub fn older_than(&self, now: u64, max_age_ticks: u64) -> (r: ExofsResult<Vec<SnapshotRef>>)
        ensures
            r matches Ok(v) && v@ == older_upto(self@.entries, now, max_age_ticks, self@.entries.len() as int),
    {
        let mut out: Vec<SnapshotRef> = Vec::new();
        let mut i: usize = 0;
        while i < self.entries.len()
            invariant
                0 <= i <= self.entries@.len(),
                out@ == older_upto(self.entries@, now, max_age_ticks, i as int),
            decreases self.entries.len() - i,
        {
            if now.saturating_sub(self.entries[i].1.created_at) > max_age_ticks {
                out.push(SnapshotRef::from(&self.entries[i].1));
            }
            i += 1;
        }
        Ok(out)
    }

    /// Recorded count.
    pub fn count(&self) -> (r: usize)
        ensures
            r == self@.count,
    {
        self.count
    }

    /// Recorded byte total.
    pub fn total_bytes(&self) -> (r: u64)
        ensures
            r == self@.total_bytes,
    {
        self.total_bytes
    }

    /// Tally of the entries.
    pub fn stats(&self) -> (r: ListStats)
        ensures
            r == stats_upto(self@.entries, self@.entries.len() as int),
            self@.entries.len() > 0 ==> (exists|j: int| 0 <= j < self@.entries.len()
                && (#[trigger] self@.entries[j]).1.created_at == r.oldest_created_at),
            forall|j: int| 0 <= j < self@.entries.len() ==> r.oldest_created_at <= (#[trigger] self@.entries[j]).1.created_at
                <= r.newest_created_at,
    {
        let mut s = ListStats::default();
        s.count = self.entries.len();
        let mut i: usize = 0;
        while i < self.entries.len()
            invariant
                0 <= i <= self.entries@.len(),
                s == stats_upto(self.entries@, i as int),
                s.n_protected <= i && s.n_readonly <= i && s.n_orphan <= i,
            decreases self.entries.len() - i,
        {
            let x = self.entries[i].1;
            if i == 0 || x.created_at < s.oldest_created_at {
                s.oldest_created_at = x.created_at;
            }
            if x.created_at > s.newest_created_at {
                s.newest_created_at = x.created_at;
            }
            if x.flags & flags::PROTECTED != 0 {
                s.n_protected = s.n_protected + 1;
            }
            if x.flags & flags::READONLY != 0 {
                s.n_readonly = s.n_readonly + 1;
            }
            if x.flags & flags::ORPHAN != 0 {
                s.n_orphan = s.n_orphan + 1;
            }
            s.total_bytes = s.total_bytes.saturating_add(x.total_bytes);
            if x.n_blobs > s.max_blobs_in_one {
                s.max_blobs_in_one = x.n_blobs;
            }
            if x.total_bytes > s.max_bytes_in_one {
                s.max_bytes_in_one = x.total_bytes;
            }
            i += 1;
        }
        proof {
            if self@.entries.len() > 0 {
                lemma_stats_times(self@.entries, self@.entries.len() as int);
            }
        }
        s
    }

    /// Empties the registry and zeroes the recorded count and total.
    pub fn clear(&mut self)
        ensures
            final(self).wf(),
            final(self)@ == (SnapshotListView { entries: Seq::empty(), count: 0, total_bytes: 0, ..old(self)@ }),
    {
        self.entries.clear();
        self.count = 0;
        self.total_bytes = 0;
    }

    fn sum_bytes(&self) -> (r: u64)
        ensures
            r == bytes_upto(self@.entries, self@.entries.len() as int),
    {
        let mut t: u64 = 0;
        let mut i: usize = 0;
        while i < self.entries.len()
            invariant
                0 <= i <= self.entries@.len(),
                t == bytes_upto(self.entries@, i as int),
            decreases self.entries.len() - i,
        {
            t = t.saturating_add(self.entries[i].1.total_bytes);
            i += 1;
        }
        t
    }

    /// Sets the recorded count and total from the entries.
    pub fn recompute_stats(&mut self)
        requires
            old(self).wf(),
        ensures
            final(self).wf(),
            final(self)@ == (SnapshotListView {
                count: old(self)@.entries.len() as usize,
                total_bytes: bytes_upto(old(self)@.entries, old(self)@.entries.len() as int),
                ..old(self)@
            }),
    {
        let total = self.sum_bytes();
        self.count = self.entries.len();
        self.total_bytes = total;
    }

    /// Compares the recorded count, then the recorded total, with the entries.
    pub fn verify_consistency(&self) -> (r: Result<(), ListConsistencyError>)
        ensures
            ({
                let actual_count = self@.entries.len();
                let actual_bytes = bytes_upto(self@.entries, self@.entries.len() as int);
                &&& self@.count != actual_count ==> (r matches Err(ListConsistencyError::CountMismatch { recorded, actual })
                    && recorded == self@.count && actual == actual_count)
                &&& self@.count == actual_count && self@.total_bytes != actual_bytes
                    ==> (r matches Err(ListConsistencyError::BytesMismatch { recorded, actual })
                    && recorded == self@.total_bytes && actual == actual_bytes)
                &&& self@.count == actual_count && self@.total_bytes == actual_bytes ==> r is Ok
            }),
    {
        let actual_count = self.entries.len();
        let actual_bytes = self.sum_bytes();
        if self.count != actual_count {
            return Err(ListConsistencyError::CountMismatch { recorded: self.count, actual: actual_count });
        }
        if self.total_bytes != actual_bytes {
            return Err(ListConsistencyError::BytesMismatch { recorded: self.total_bytes, actual: actual_bytes });
        }
        Ok(())
    }
}

/// Registering a new snapshot at its place keeps the keys in order, and
/// removing it again gives the entries back.
pub proof fn lemma_register_remove(s: Seq<(u64, Snapshot)>, p: int, snap: Snapshot)
    requires
        keys_sorted(s),
        0 <= p <= s.len(),
        forall|i: int| 0 <= i < p ==> (#[trigger] s[i]).0 < snap.id.0,
        forall|i: int| p <= i < s.len() ==> (#[trigger] s[i]).0 > snap.id.0,
    ensures
        keys_sorted(s.insert(p, (snap.id.0, snap))),
        s.insert(p, (snap.id.0, snap))[p] == (snap.id.0, snap),
        s.insert(p, (snap.id.0, snap)).remove(p) == s,
{
    let t = s.insert(p, (snap.id.0, snap));
    assert forall|i: int, j: int| 0 <= i < j < t.len() implies (#[trigger] t[i]).0 < (#[trigger] t[j]).0 by {
        if j < p {
            assert(t[i] == s[i] && t[j] == s[j]);
        } else if j == p {
            assert(t[i] == s[i]);
        } else if i < p {
            assert(t[i] == s[i] && t[j] == s[j - 1]);
        } else if i == p {
            assert(t[j] == s[j - 1]);
        } else {
            assert(t[i] == s[i - 1] && t[j] == s[j - 1]);
        }
    }
    assert(t.remove(p) =~= s);
}

/// The recorded count and byte total match the entries.
pub open spec fn consistent(l: SnapshotListView) -> bool {
    l.count == l.entries.len() && l.total_bytes == bytes_upto(l.entries, l.entries.len() as int)
}

/// Plain sum of the byte totals of the first `n` entries.
pub open spec fn sum_upto(s: Seq<(u64, Snapshot)>, n: int) -> int
    decreases n,
{
    if n <= 0 { 0 } else { sum_upto(s, n - 1) + s[n - 1].1.total_bytes }
}

proof fn lemma_sum_prefix(a: Seq<(u64, Snapshot)>, b: Seq<(u64, Snapshot)>, n: int)
    requires
        0 <= n <= a.len(),
        n <= b.len(),
        forall|k: int| 0 <= k < n ==> a[k] == b[k],
    ensures
        sum_upto(a, n) == sum_upto(b, n),
        bytes_upto(a, n) == bytes_upto(b, n),
    decreases n,
{
    if n > 0 {
        lemma_sum_prefix(a, b, n - 1);
    }
}

proof fn lemma_bytes_clamp(s: Seq<(u64, Snapshot)>, n: int)
    requires
        0 <= n <= s.len(),
    ensures
        bytes_upto(s, n) == (if sum_upto(s, n) > u64::MAX { u64::MAX as int } else { sum_upto(s, n) }),
        sum_upto(s, n) >= 0,
    decreases n,
{
    if n > 0 {
        lemma_bytes_clamp(s, n - 1);
    }
}

proof fn lemma_sum_insert(s: Seq<(u64, Snapshot)>, p: int, e: (u64, Snapshot))
    requires
        0 <= p <= s.len(),
    ensures
        sum_upto(s.insert(p, e), s.len() + 1int) == sum_upto(s, s.len() as int) + e.1.total_bytes,
    decreases s.len(),
{
    let t = s.insert(p, e);
    if p == s.len() {
        assert(t =~= s.push(e));
        lemma_sum_prefix(t, s, s.len() as int);
    } else {
        let d = s.drop_last();
        lemma_sum_insert(d, p, e);
        assert(t =~= d.insert(p, e).push(s.last()));
        lemma_sum_prefix(t, d.insert(p, e), d.len() + 1int);
        lemma_sum_prefix(s, d, d.len() as int);
    }
}

/// A consistent registry stays consistent when a snapshot is registered:
/// the entry inserted, the count one more, the total grown by its bytes.
pub proof fn lemma_register_consistent(o: SnapshotListView, n: SnapshotListView, p: int, snap: Snapshot)
    requires
        consistent(o),
        0 <= p <= o.entries.len(),
        o.total_bytes + snap.total_bytes <= u64::MAX,
        n.entries == o.entries.insert(p, (snap.id.0, snap)),
        n.count == o.count + 1,
        n.total_bytes == o.total_bytes + snap.total_bytes,
    ensures
        consistent(n),
{
    lemma_sum_insert(o.entries, p, (snap.id.0, snap));
    lemma_bytes_clamp(o.entries, o.entries.len() as int);
    lemma_bytes_clamp(n.entries, n.entries.len() as int);
}

/// A consistent registry whose byte total never saturated stays consistent
/// when an entry is removed.
pub proof fn lemma_remove_consistent(o: SnapshotListView, i: int)
    requires
        consistent(o),
        sum_upto(o.entries, o.entries.len() as int) <= u64::MAX,
        0 <= i < o.entries.len(),
    ensures
        consistent(list_removed(o, i)),
{
    let r = o.entries.remove(i);
    assert(r.insert(i, o.entries[i]) =~= o.entries);
    lemma_sum_insert(r, i, o.entries[i]);
    lemma_bytes_clamp(o.entries, o.entries.len() as int);
    lemma_bytes_clamp(r, r.len() as int);
}

/// In a registry with ordered keys, a key sits at one index only.
pub proof fn lemma_unique_key(s: Seq<(u64, Snapshot)>, k: u64)
    requires
        keys_sorted(s),
    ensures
        forall|i: int, j: int| 0 <= i < s.len() && 0 <= j < s.len() && (#[trigger] s[i]).0 == k && (#[trigger] s[j]).0 == k ==> i == j,
{
    assert forall|i: int, j: int| 0 <= i < s.len() && 0 <= j < s.len() && (#[trigger] s[i]).0 == k && (#[trigger] s[j]).0 == k implies i == j by {
        if i < j {
            assert(s[i].0 < s[j].0);
        } else if j < i {
            assert(s[j].0 < s[i].0);
        }
    }
}

} // verus!
