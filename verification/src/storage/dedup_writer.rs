//! Deduplication index: blobs by content identifier, with reference counts.
//!
//! The index has 256 buckets, chosen by the first byte of the identifier.
use vstd::prelude::*;
use crate::types::{BlobId, DiskOffset, ExofsError, ExofsResult};
use crate::hash::{compute_blob_id, blob_id_spec};
use crate::storage::compression_choice::wadd;

verus! {

/// A blob known to the index.
#[derive(Clone, Copy, Debug)]
pub struct DedupEntry {
    pub blob_id: BlobId,
    pub offset: DiskOffset,
    pub size: u64,
    pub ref_count: u32,
}

impl DedupEntry {
    /// An entry with one reference.
    pub fn new(blob_id: BlobId, offset: DiskOffset, size: u64) -> (r: DedupEntry)
        ensures
            r == (DedupEntry { blob_id, offset, size, ref_count: 1 }),
    {
        DedupEntry { blob_id, offset, size, ref_count: 1 }
    }

    /// One more reference (saturating).
    pub fn inc_ref(&mut self)
        ensures
            *final(self) == (DedupEntry { ref_count: inc_sat(old(self).ref_count), ..*old(self) }),
    {
        self.ref_count = self.ref_count.saturating_add(1);
    }

    /// One reference less (stops at 0); returns the count left.
    pub fn dec_ref(&mut self) -> (r: u32)
        ensures
            *final(self) == (DedupEntry { ref_count: dec_sat(old(self).ref_count), ..*old(self) }),
            r == dec_sat(old(self).ref_count),
    {
        self.ref_count = self.ref_count.saturating_sub(1);
        self.ref_count
    }
}

/// `c + 1` clamped to `u32::MAX`.
pub open spec fn inc_sat(c: u32) -> u32 {
    if c == u32::MAX { c } else { (c + 1) as u32 }
}

/// `c - 1` stopping at 0.
pub open spec fn dec_sat(c: u32) -> u32 {
    if c == 0 { 0 } else { (c - 1) as u32 }
}

/// Outcome of a lookup before a write.
#[derive(Debug)]
pub enum DedupDecision {
    /// The content is stored already at `offset`; `saved` bytes need not be written.
    Hit { blob_id: BlobId, offset: DiskOffset, saved: u64 },
    /// The content is new.
    Miss { blob_id: BlobId },
}

impl DedupDecision {
    /// True for a hit.
    pub fn is_hit(&self) -> (r: bool)
        ensures
            r == (*self is Hit),
    {
        matches!(self, DedupDecision::Hit { .. })
    }

    /// True for a miss.
    pub fn is_miss(&self) -> (r: bool)
        ensures
            r == (*self is Miss),
    {
        matches!(self, DedupDecision::Miss { .. })
    }

    /// The content identifier looked up.
    pub fn blob_id(&self) -> (r: &BlobId)
        ensures
            *self matches DedupDecision::Hit { blob_id, .. } ==> *r == blob_id,
            *self matches DedupDecision::Miss { blob_id } ==> *r == blob_id,
    {
        match self {
            DedupDecision::Hit { blob_id, .. } => blob_id,
            DedupDecision::Miss { blob_id } => blob_id,
        }
    }
}

/// Number of buckets.
pub const DEDUP_BUCKETS: usize = 256;

/// Two identifiers are equal.
pub open spec fn same_id(a: BlobId, b: BlobId) -> bool {
    a.0@ == b.0@
}

/// Bucket of an identifier: its first byte.
pub open spec fn bucket_of(id: BlobId) -> int {
    id.0@[0] as int
}

/// `i` is the first entry of `bk` with identifier `id`.
pub open spec fn first_id(bk: Seq<DedupEntry>, id: BlobId, i: int) -> bool {
    0 <= i < bk.len() && same_id(bk[i].blob_id, id) && forall|j: int| 0 <= j < i ==> !same_id(#[trigger] bk[j].blob_id, id)
}

/// No entry of `bk` has identifier `id`.
pub open spec fn absent(bk: Seq<DedupEntry>, id: BlobId) -> bool {
    forall|j: int| 0 <= j < bk.len() ==> !same_id(#[trigger] bk[j].blob_id, id)
}

struct DedupBucket {
    entries: Vec<DedupEntry>,
}

impl DedupBucket {
    fn new() -> (r: DedupBucket)
        ensures
            r.entries@ == Seq::<DedupEntry>::empty(),
    {
        DedupBucket { entries: Vec::new() }
    }

    fn find(&self, id: &BlobId) -> (r: Option<usize>)
        ensures
            r matches Some(i) ==> first_id(self.entries@, *id, i as int),
            r is None ==> absent(self.entries@, *id),
    {
        let mut i: usize = 0;
        while i < self.entries.len()
            invariant
                forall|j: int| 0 <= j < i ==> !same_id(#[trigger] self.entries@[j].blob_id, *id),
            decreases self.entries.len() - i,
        {
            if self.entries[i].blob_id.ct_eq(id) {
                return Some(i);
            }
            i += 1;
        }
        None
    }

    fn find_mut(&mut self, id: &BlobId) -> (r: Option<usize>)
        ensures
            *final(self) == *old(self),
            r matches Some(i) ==> first_id(old(self).entries@, *id, i as int),
            r is None ==> absent(old(self).entries@, *id),
    {
        self.find(id)
    }

    fn insert(&mut self, entry: DedupEntry) -> (r: ExofsResult<()>)
        ensures
            final(self).entries@ == old(self).entries@.push(entry),
            r == Ok::<(), ExofsError>(()),
    {
        self.entries.push(entry);
        Ok(())
    }

    fn remove(&mut self, id: &BlobId) -> (r: Option<DedupEntry>)
        ensures
            r is None ==> absent(old(self).entries@, *id) && final(self).entries@ == old(self).entries@,
            r is Some ==> exists|i: int| #[trigger] first_id(old(self).entries@, *id, i) && r == Some(old(self).entries@[i])
                && final(self).entries@ == old(self).entries@.update(i, old(self).entries@.last()).drop_last(),
    {
        match self.find(id) {
            Some(pos) => {
                proof {
                    lemma_first_id_unique(self.entries@, *id, pos as int);
                }
                Some(self.entries.swap_remove(pos))
            },
            None => None,
        }
    }

    fn len(&self) -> (r: usize)
        ensures
            r == self.entries@.len(),
    {
        self.entries.len()
    }
}

/// The first entry with a given identifier is unique.
pub proof fn lemma_first_id_unique(bk: Seq<DedupEntry>, id: BlobId, i: int)
    requires
        first_id(bk, id, i),
    ensures
        forall|k: int| #[trigger] first_id(bk, id, k) ==> k == i,
{
    assert forall|k: int| #[trigger] first_id(bk, id, k) implies k == i by {
        if k < i {
            assert(!same_id(bk[k].blob_id, id));
        } else if k > i {
            assert(!same_id(bk[i].blob_id, id));
        }
    }
}

/// Abstract state of the index.
pub struct DedupIndexView {
    pub buckets: Seq<Seq<DedupEntry>>,
    pub total: usize,
}

struct DedupIndexInner {
    buckets: Vec<DedupBucket>,
    total: usize,
}

impl DedupIndexInner {
    closed spec fn view(&self) -> DedupIndexView {
        DedupIndexView { buckets: self.buckets@.map_values(|b: DedupBucket| b.entries@), total: self.total }
    }

    closed spec fn wf(&self) -> bool {
        self.buckets@.len() == DEDUP_BUCKETS
    }

    fn new() -> (r: DedupIndexInner)
        ensures
            r.wf(),
            r.view().buckets == Seq::new(256, |i: int| Seq::<DedupEntry>::empty()),
            r.view().total == 0,
    {
        let mut buckets: Vec<DedupBucket> = Vec::new();
        let mut i: usize = 0;
        while i < DEDUP_BUCKETS
            invariant
                0 <= i <= DEDUP_BUCKETS,
                buckets@.len() == i,
                forall|k: int| 0 <= k < i ==> (#[trigger] buckets@[k]).entries@ == Seq::<DedupEntry>::empty(),
            decreases DEDUP_BUCKETS - i,
        {
            buckets.push(DedupBucket::new());
            i += 1;
        }
        let r = DedupIndexInner { buckets, total: 0 };
        proof {
            assert(r.view().buckets =~= Seq::new(256, |i: int| Seq::<DedupEntry>::empty()));
        }
        r
    }

    fn bucket_index(id: &BlobId) -> (r: usize)
        ensures
            r == bucket_of(*id),
            r < DEDUP_BUCKETS,
    {
        id.0[0] as usize
    }

    fn lookup(&self, id: &BlobId) -> (r: Option<DedupEntry>)
        requires
            self.wf(),
        ensures
            absent(self.view().buckets[bucket_of(*id)], *id) <==> r is None,
            forall|i: int| #[trigger] first_id(self.view().buckets[bucket_of(*id)], *id, i) ==> r == Some(
                self.view().buckets[bucket_of(*id)][i]),
    {
        let idx = Self::bucket_index(id);
        proof {
            assert(self.view().buckets[idx as int] == self.buckets@[idx as int].entries@);
        }
        match self.buckets[idx].find(id) {
            Some(i) => {
                proof {
                    lemma_first_id_unique(self.buckets@[idx as int].entries@, *id, i as int);
                    assert(!same_id(self.buckets@[idx as int].entries@[i as int].blob_id, *id) == false);
                }
                Some(self.buckets[idx].entries[i])
            },
            None => None,
        }
    }

    fn insert(&mut self, entry: DedupEntry) -> (r: ExofsResult<()>)
        requires
            old(self).wf(),
        ensures
            final(self).wf(),
            r == Ok::<(), ExofsError>(()),
            final(self).view() == (DedupIndexView {
                buckets: old(self).view().buckets.update(bucket_of(entry.blob_id),
                    old(self).view().buckets[bucket_of(entry.blob_id)].push(entry)),
                total: if old(self).total == usize::MAX { usize::MAX } else { (old(self).total + 1) as usize },
            }),
    {
        let idx = Self::bucket_index(&entry.blob_id);
        let ghost before = self.view();
        self.buckets[idx].insert(entry)?;
        self.total = self.total.saturating_add(1);
        proof {
            assert(self.view().buckets =~= before.buckets.update(idx as int, before.buckets[idx as int].push(entry)));
        }
        Ok(())
    }

    fn set_count(&mut self, id: &BlobId, up: bool) -> (r: Option<u32>)
        requires
            old(self).wf(),
        ensures
            final(self).wf(),
            final(self).total == old(self).total,
            absent(old(self).view().buckets[bucket_of(*id)], *id) ==> r is None && final(self).view() == old(self).view(),
            forall|i: int| #[trigger] first_id(old(self).view().buckets[bucket_of(*id)], *id, i) ==> {
                let b = bucket_of(*id);
                let e = old(self).view().buckets[b][i];
                let c = if up { inc_sat(e.ref_count) } else { dec_sat(e.ref_count) };
                &&& r == Some(c)
                &&& final(self).view().buckets == old(self).view().buckets.update(b,
                    old(self).view().buckets[b].update(i, DedupEntry { ref_count: c, ..e }))
            },
    {
        let idx = Self::bucket_index(id);
        proof {
            assert(self.view().buckets[idx as int] == self.buckets@[idx as int].entries@);
        }
        let ghost before = self.view();
        match self.buckets[idx].find(id) {
            Some(i) => {
                proof {
                    lemma_first_id_unique(self.buckets@[idx as int].entries@, *id, i as int);
                }
                let c = if up {
                    self.buckets[idx].entries[i].inc_ref();
                    self.buckets[idx].entries[i].ref_count
                } else {
                    self.buckets[idx].entries[i].dec_ref()
                };
                proof {
                    assert(self.view().buckets =~= before.buckets.update(idx as int, before.buckets[idx as int].update(i as int,
                        DedupEntry { ref_count: c, ..before.buckets[idx as int][i as int] })));
                }
                Some(c)
            },
            None => None,
        }
    }

    fn inc_ref(&mut self, id: &BlobId) -> (r: bool)
        requires
            old(self).wf(),
        ensures
            final(self).wf(),
            final(self).total == old(self).total,
            absent(old(self).view().buckets[bucket_of(*id)], *id) ==> !r && final(self).view() == old(self).view(),
            forall|i: int| #[trigger] first_id(old(self).view().buckets[bucket_of(*id)], *id, i) ==> {
                let b = bucket_of(*id);
                let e = old(self).view().buckets[b][i];
                &&& r
                &&& final(self).view().buckets == old(self).view().buckets.update(b,
                    old(self).view().buckets[b].update(i, DedupEntry { ref_count: inc_sat(e.ref_count), ..e }))
            },
    {
        self.set_count(id, true).is_some()
    }

    fn dec_ref(&mut self, id: &BlobId) -> (r: Option<u32>)
        requires
            old(self).wf(),
        ensures
            final(self).wf(),
            final(self).total == old(self).total,
            absent(old(self).view().buckets[bucket_of(*id)], *id) ==> r is None && final(self).view() == old(self).view(),
            forall|i: int| #[trigger] first_id(old(self).view().buckets[bucket_of(*id)], *id, i) ==> {
                let b = bucket_of(*id);
                let e = old(self).view().buckets[b][i];
                &&& r == Some(dec_sat(e.ref_count))
                &&& final(self).view().buckets == old(self).view().buckets.update(b,
                    old(self).view().buckets[b].update(i, DedupEntry { ref_count: dec_sat(e.ref_count), ..e }))
            },
    {
        self.set_count(id, false)
    }

    fn remove(&mut self, id: &BlobId) -> (r: Option<DedupEntry>)
        requires
            old(self).wf(),
        ensures
            final(self).wf(),
            absent(old(self).view().buckets[bucket_of(*id)], *id) ==> r is None && final(self).view() == old(self).view(),
            forall|i: int| #[trigger] first_id(old(self).view().buckets[bucket_of(*id)], *id, i) ==> {
                let b = bucket_of(*id);
                let bk = old(self).view().buckets[b];
                &&& r == Some(bk[i])
                &&& final(self).view() == (DedupIndexView {
                    buckets: old(self).view().buckets.update(b, bk.update(i, bk.last()).drop_last()),
                    total: if old(self).total == 0 { 0 } else { (old(self).total - 1) as usize },
                })
            },
    {
        let idx = Self::bucket_index(id);
        proof {
            assert(self.view().buckets[idx as int] == self.buckets@[idx as int].entries@);
        }
        let ghost before = self.view();
        let r = self.buckets[idx].remove(id);
        if r.is_some() {
            self.total = self.total.saturating_sub(1);
        }
        proof {
            let bk = before.buckets[idx as int];
            if r is Some {
                let i = choose|i: int| #[trigger] first_id(bk, *id, i) && r == Some(bk[i])
                    && self.buckets@[idx as int].entries@ == bk.update(i, bk.last()).drop_last();
                lemma_first_id_unique(bk, *id, i);
                assert(self.view().buckets =~= before.buckets.update(idx as int, bk.update(i, bk.last()).drop_last()));
            } else {
                assert(self.view().buckets =~= before.buckets);
                assert forall|i: int| #[trigger] first_id(bk, *id, i) implies false by {
                    assert(!same_id(bk[i].blob_id, *id));
                }
            }
        }
        r
    }

    fn total_entries(&self) -> (r: usize)
        ensures
            r == self.total,
    {
        self.total
    }

    fn load_factor_pct(&self) -> (r: u32)
        ensures
            r == ((self.total * 100 / 256) % 0x1_0000_0000) as u32,
    {
        ((self.total as u128 * 100 / DEDUP_BUCKETS as u128) % 0x1_0000_0000) as u32
    }
}

/// Abstract state of a deduplication writer.
pub struct DedupWriterView {
    pub index: DedupIndexView,
    pub hits: u64,
    pub misses: u64,
    pub saved: u64,
}

/// Result of a garbage collection.
#[derive(Clone, Copy, Debug)]
pub struct GcReport {
    pub entries_scanned: u64,
    pub entries_removed: u64,
    pub bytes_reclaimed: u64,
}

/// Deduplication writer.
pub struct DedupWriter {
    index: DedupIndexInner,
    hits: u64,
    misses: u64,
    saved: u64,
}

impl View for DedupWriter {
    type V = DedupWriterView;

    closed spec fn view(&self) -> DedupWriterView {
        DedupWriterView { index: self.index.view(), hits: self.hits, misses: self.misses, saved: self.saved }
    }
}

/// The identifier of a decision.
pub open spec fn decision_id(d: DedupDecision) -> BlobId {
    match d {
        DedupDecision::Hit { blob_id, .. } => blob_id,
        DedupDecision::Miss { blob_id } => blob_id,
    }
}

/// The bucket of `id` in the index `v`.
pub open spec fn bucket(v: DedupWriterView, id: BlobId) -> Seq<DedupEntry> {
    v.index.buckets[bucket_of(id)]
}

/// All entries, bucket by bucket, of the first `k` buckets.
pub open spec fn all_entries(bs: Seq<Seq<DedupEntry>>, k: int) -> Seq<DedupEntry>
    decreases k,
{
    if k <= 0 { Seq::empty() } else { all_entries(bs, k - 1) + bs[k - 1] }
}

/// Entries kept by a collection: those with references.
pub open spec fn live(bk: Seq<DedupEntry>) -> Seq<DedupEntry> {
    bk.filter(|e: DedupEntry| e.ref_count != 0)
}

/// Sizes of the entries without references, summed modulo 2^64.
pub open spec fn dead_bytes(es: Seq<DedupEntry>) -> u64
    decreases es.len(),
{
    if es.len() == 0 {
        0
    } else {
        let p = dead_bytes(es.drop_last());
        if es.last().ref_count == 0 { wadd(p, es.last().size) } else { p }
    }
}

impl DedupWriter {
    /// 256 buckets in the index.
    pub closed spec fn wf(&self) -> bool {
        self.index.wf()
    }

    /// The index has 256 buckets.
    pub proof fn lemma_wf(&self)
        requires
            self.wf(),
        ensures
            self@.index.buckets.len() == DEDUP_BUCKETS,
    {
    }

    /// An empty index.
    pub fn new() -> (r: DedupWriter)
        ensures
            r.wf(),
            r@.index.buckets == Seq::new(256, |i: int| Seq::<DedupEntry>::empty()),
            r@.index.total == 0 && r@.hits == 0 && r@.misses == 0 && r@.saved == 0,
    {
        DedupWriter { index: DedupIndexInner::new(), hits: 0, misses: 0, saved: 0 }
    }

    /// Looks the content up: a hit gives where it is stored.
    pub fn check(&mut self, raw_data: &[u8]) -> (r: DedupDecision)
        requires
            old(self).wf(),
        ensures
            final(self).wf(),
            decision_id(r).0@ == blob_id_spec(raw_data@),
            absent(bucket(old(self)@, decision_id(r)), decision_id(r)) ==> r is Miss && final(self)@ == (DedupWriterView {
                misses: wadd(old(self)@.misses, 1),
                ..old(self)@
            }),
            forall|i: int| #[trigger] first_id(bucket(old(self)@, decision_id(r)), decision_id(r), i) ==> {
                &&& r matches DedupDecision::Hit { offset, saved, .. } && offset == bucket(old(self)@, decision_id(r))[i].offset
                    && saved == raw_data@.len()
                &&& final(self)@ == (DedupWriterView {
                    hits: wadd(old(self)@.hits, 1),
                    saved: wadd(old(self)@.saved, raw_data@.len() as u64),
                    ..old(self)@
                })
            },
    {
        let blob_id = compute_blob_id(raw_data);
        match self.index.lookup(&blob_id) {
            Some(entry) => {
                let saved = raw_data.len() as u64;
                self.hits = self.hits.wrapping_add(1);
                self.saved = self.saved.wrapping_add(saved);
                DedupDecision::Hit { blob_id, offset: entry.offset, saved }
            },
            None => {
                self.misses = self.misses.wrapping_add(1);
                DedupDecision::Miss { blob_id }
            },
        }
    }

    /// Registers a stored blob: one more reference when known, else a new entry.
    pub fn register(&mut self, blob_id: BlobId, offset: DiskOffset, size: u64) -> (r: ExofsResult<()>)
        requires
            old(self).wf(),
        ensures
            final(self).wf(),
            r == Ok::<(), ExofsError>(()),
            final(self)@.hits == old(self)@.hits && final(self)@.misses == old(self)@.misses && final(self)@.saved == old(self)@.saved,
            absent(bucket(old(self)@, blob_id), blob_id) ==> final(self)@.index == (DedupIndexView {
                buckets: old(self)@.index.buckets.update(bucket_of(blob_id),
                    bucket(old(self)@, blob_id).push(DedupEntry { blob_id, offset, size, ref_count: 1 })),
                total: if old(self)@.index.total == usize::MAX { usize::MAX } else { (old(self)@.index.total + 1) as usize },
            }),
            forall|i: int| #[trigger] first_id(bucket(old(self)@, blob_id), blob_id, i) ==> final(self)@.index == (DedupIndexView {
                buckets: old(self)@.index.buckets.update(bucket_of(blob_id), bucket(old(self)@, blob_id).update(i,
                    DedupEntry { ref_count: inc_sat(bucket(old(self)@, blob_id)[i].ref_count), ..bucket(old(self)@, blob_id)[i] })),
                ..old(self)@.index
            }),
    {
        let entry = DedupEntry::new(blob_id, offset, size);
        if self.index.lookup(&blob_id).is_some() {
            self.index.inc_ref(&blob_id);
            return Ok(());
        }
        self.index.insert(entry)
    }

    /// One more reference; false when unknown.
    pub fn inc_ref(&mut self, blob_id: &BlobId) -> (r: bool)
        requires
            old(self).wf(),
        ensures
            final(self).wf(),
            final(self)@.hits == old(self)@.hits && final(self)@.misses == old(self)@.misses && final(self)@.saved == old(self)@.saved,
            final(self)@.index.total == old(self)@.index.total,
            absent(bucket(old(self)@, *blob_id), *blob_id) ==> !r && final(self)@ == old(self)@,
            forall|i: int| #[trigger] first_id(bucket(old(self)@, *blob_id), *blob_id, i) ==> r
                && final(self)@.index.buckets == old(self)@.index.buckets.update(bucket_of(*blob_id),
                    bucket(old(self)@, *blob_id).update(i, DedupEntry {
                        ref_count: inc_sat(bucket(old(self)@, *blob_id)[i].ref_count),
                        ..bucket(old(self)@, *blob_id)[i]
                    })),
    {
        self.index.inc_ref(blob_id)
    }

    /// One reference less; the entry stays, with its count, until a
    /// collection removes it. `None` when unknown.
    pub fn dec_ref(&mut self, blob_id: &BlobId) -> (r: Option<u32>)
        requires
            old(self).wf(),
        ensures
            final(self).wf(),
            final(self)@.hits == old(self)@.hits && final(self)@.misses == old(self)@.misses && final(self)@.saved == old(self)@.saved,
            final(self)@.index.total == old(self)@.index.total,
            absent(bucket(old(self)@, *blob_id), *blob_id) ==> r is None && final(self)@ == old(self)@,
            forall|i: int| #[trigger] first_id(bucket(old(self)@, *blob_id), *blob_id, i) ==> r == Some(dec_sat(
                bucket(old(self)@, *blob_id)[i].ref_count))
                && final(self)@.index.buckets == old(self)@.index.buckets.update(bucket_of(*blob_id),
                    bucket(old(self)@, *blob_id).update(i, DedupEntry {
                        ref_count: dec_sat(bucket(old(self)@, *blob_id)[i].ref_count),
                        ..bucket(old(self)@, *blob_id)[i]
                    })),
    {
        self.index.dec_ref(blob_id)
    }

    /// Removes a blob from the index; returns its entry.
    pub fn unregister(&mut self, blob_id: &BlobId) -> (r: Option<DedupEntry>)
        requires
            old(self).wf(),
        ensures
            final(self).wf(),
            final(self)@.hits == old(self)@.hits && final(self)@.misses == old(self)@.misses && final(self)@.saved == old(self)@.saved,
            absent(bucket(old(self)@, *blob_id), *blob_id) ==> r is None && final(self)@ == old(self)@,
            forall|i: int| #[trigger] first_id(bucket(old(self)@, *blob_id), *blob_id, i) ==> {
                let bk = bucket(old(self)@, *blob_id);
                &&& r == Some(bk[i])
                &&& final(self)@.index == (DedupIndexView {
                    buckets: old(self)@.index.buckets.update(bucket_of(*blob_id), bk.update(i, bk.last()).drop_last()),
                    total: if old(self)@.index.total == 0 { 0 } else { (old(self)@.index.total - 1) as usize },
                })
            },
    {
        self.index.remove(blob_id)
    }

    /// Hits so far.
    pub fn hit_count(&self) -> (r: u64)
        ensures
            r == self@.hits,
    {
        self.hits
    }

    /// Misses so far.
    pub fn miss_count(&self) -> (r: u64)
        ensures
            r == self@.misses,
    {
        self.misses
    }

    /// Bytes not written thanks to hits.
    pub fn bytes_saved(&self) -> (r: u64)
        ensures
            r == self@.saved,
    {
        self.saved
    }

    /// Entries in the index.
    pub fn entry_count(&self) -> (r: usize)
        ensures
            r == self@.index.total,
    {
        self.index.total_entries()
    }

    /// Entries per bucket, in percent.
    pub fn load_factor_pct(&self) -> (r: u32)
        ensures
            r == ((self@.index.total * 100 / 256) % 0x1_0000_0000) as u32,
    {
        self.index.load_factor_pct()
    }

    /// Hits per thousand lookups (0 before any).
    pub fn dedup_ratio_milli(&self) -> (r: u64)
        ensures
            ({
                let t = if self@.hits + self@.misses > u64::MAX { u64::MAX as int } else { self@.hits + self@.misses };
                r == (if t == 0 { 0 } else { self@.hits * 1000 / t })
            }),
    {
        let h = self.hits;
        let m = self.misses;
        let t = h.saturating_add(m);
        if t == 0 {
            0
        } else {
            proof {
                assert(h * 1000 / (t as int) <= 1000) by (nonlinear_arith)
                    requires h <= t, t > 0;
            }
            (h as u128 * 1000 / t as u128) as u64
        }
    }

    /// Removes every entry without references, bucket by bucket.
    pub fn gc(&mut self) -> (r: ExofsResult<GcReport>)
        requires
            old(self).wf(),
        ensures
            final(self).wf(),
            final(self)@.hits == old(self)@.hits && final(self)@.misses == old(self)@.misses && final(self)@.saved == old(self)@.saved,
            final(self)@.index.buckets == old(self)@.index.buckets.map_values(|bk: Seq<DedupEntry>| live(bk)),
            ({
                let all = all_entries(old(self)@.index.buckets, 256);
                let removed = all.len() - all_entries(final(self)@.index.buckets, 256).len();
                &&& r matches Ok(rep) && rep.entries_scanned == all.len() % 0x1_0000_0000_0000_0000
                    && rep.entries_removed == removed % 0x1_0000_0000_0000_0000
                    && rep.bytes_reclaimed == dead_bytes(all)
                &&& final(self)@.index.total == (if old(self)@.index.total < (rep_removed(removed) as usize) { 0 } else {
                    old(self)@.index.total - (rep_removed(removed) as usize) })
            }),
    {
        let ghost b0 = self.index.view().buckets;
        let ghost lb = b0.map_values(|bk: Seq<DedupEntry>| live(bk));
        let mut removed: u64 = 0;
        let mut reclaimed: u64 = 0;
        let mut scanned: u64 = 0;
        let mut k: usize = 0;
        while k < DEDUP_BUCKETS
            invariant
                0 <= k <= 256,
                self.index.wf(),
                b0.len() == 256,
                lb == b0.map_values(|bk: Seq<DedupEntry>| live(bk)),
                forall|j: int| 0 <= j < k ==> self.index.view().buckets[j] == lb[j],
                forall|j: int| k <= j < 256 ==> self.index.view().buckets[j] == b0[j],
                self.index.total == old(self).index.total,
                scanned == all_entries(b0, k as int).len() % 0x1_0000_0000_0000_0000,
                removed == (all_entries(b0, k as int).len() - all_entries(lb, k as int).len()) % 0x1_0000_0000_0000_0000,
                all_entries(b0, k as int).len() >= all_entries(lb, k as int).len(),
                reclaimed == dead_bytes(all_entries(b0, k as int)),
                self.hits == old(self).hits && self.misses == old(self).misses && self.saved == old(self).saved,
            decreases 256 - k,
        {
            let ghost before = self.index.view().buckets;
            proof {
                assert(before[k as int] == self.index.buckets@[k as int].entries@);
            }
            let (kept, n_scan, n_rem, bytes) = Self::sweep(&self.index.buckets[k].entries, reclaimed);
            self.index.buckets.set(k, DedupBucket { entries: kept });
            proof {
                assert(self.index.view().buckets =~= before.update(k as int, live(b0[k as int])));
                assert(all_entries(b0, k + 1) == all_entries(b0, k as int) + b0[k as int]);
                assert(all_entries(lb, k + 1) == all_entries(lb, k as int) + lb[k as int]);
                lemma_dead_bytes_concat(all_entries(b0, k as int), b0[k as int]);
                lemma_mod_add(all_entries(b0, k as int).len() as int, b0[k as int].len() as int);
                lemma_mod_add(all_entries(b0, k as int).len() - all_entries(lb, k as int).len(),
                    b0[k as int].len() - lb[k as int].len());
            }
            scanned = scanned.wrapping_add(n_scan);
            removed = removed.wrapping_add(n_rem);
            reclaimed = bytes;
            k += 1;
        }
        proof {
            assert(self.index.view().buckets =~= lb);
        }
        self.index.total = self.index.total.saturating_sub(removed as usize);
        Ok(GcReport { entries_scanned: scanned, entries_removed: removed, bytes_reclaimed: reclaimed })
    }

    /// The entries of a bucket that have references, with the counts of
    /// entries seen and removed and the bytes of the removed ones.
    fn sweep(entries: &Vec<DedupEntry>, acc: u64) -> (r: (Vec<DedupEntry>, u64, u64, u64))
        ensures
            r.0@ == live(entries@),
            r.1 == entries@.len(),
            r.2 == entries@.len() - live(entries@).len(),
            r.3 == wadd_all(acc, entries@),
    {
        let mut kept: Vec<DedupEntry> = Vec::new();
        let mut bytes: u64 = acc;
        let mut i: usize = 0;
        while i < entries.len()
            invariant
                0 <= i <= entries@.len(),
                kept@ == live(entries@.subrange(0, i as int)),
                bytes == wadd_all(acc, entries@.subrange(0, i as int)),
                kept@.len() <= i,
            decreases entries.len() - i,
        {
            let e = entries[i];
            proof {
                assert(entries@.subrange(0, i + 1).drop_last() == entries@.subrange(0, i as int));
                reveal(Seq::filter);
            }
            if e.ref_count == 0 {
                bytes = wrap(bytes, e.size);
            } else {
                kept.push(e);
            }
            i += 1;
        }
        proof {
            assert(entries@.subrange(0, entries@.len() as int) == entries@);
        }
        let n = entries.len() as u64;
        let k = kept.len() as u64;
        (kept, n, n - k, bytes)
    }

    /// Identifiers of the entries with exactly one reference, bucket by bucket.
    pub fn orphans(&self) -> (r: Vec<BlobId>)
        requires
            self.wf(),
        ensures
            r@ == all_entries(self@.index.buckets, 256).filter(|e: DedupEntry| e.ref_count == 1).map_values(|e: DedupEntry| e.blob_id),
    {
        let all = self.snapshot_entries();
        let mut out: Vec<BlobId> = Vec::new();
        let mut i: usize = 0;
        while i < all.len()
            invariant
                0 <= i <= all@.len(),
                out@ == all@.subrange(0, i as int).filter(|e: DedupEntry| e.ref_count == 1).map_values(|e: DedupEntry| e.blob_id),
            decreases all.len() - i,
        {
            proof {
                assert(all@.subrange(0, i + 1).drop_last() == all@.subrange(0, i as int));
                reveal(Seq::filter);
            }
            if all[i].ref_count == 1 {
                out.push(all[i].blob_id);
                proof {
                    let f = all@.subrange(0, i as int).filter(|e: DedupEntry| e.ref_count == 1);
                    assert(f.push(all@[i as int]).map_values(|e: DedupEntry| e.blob_id) =~= f.map_values(|e: DedupEntry| e.blob_id).push(
                        all@[i as int].blob_id));
                }
            }
            i += 1;
        }
        proof {
            assert(all@.subrange(0, all@.len() as int) == all@);
        }
        out
    }

    fn snapshot_entries(&self) -> (r: Vec<DedupEntry>)
        requires
            self.wf(),
        ensures
            r@ == all_entries(self@.index.buckets, 256),
    {
        let mut snap: Vec<DedupEntry> = Vec::new();
        let mut k: usize = 0;
        while k < DEDUP_BUCKETS
            invariant
                0 <= k <= 256,
                self.index.wf(),
                snap@ == all_entries(self@.index.buckets, k as int),
            decreases 256 - k,
        {
            proof {
                assert(self@.index.buckets[k as int] == self.index.buckets@[k as int].entries@);
            }
            let bk = &self.index.buckets[k].entries;
            let mut i: usize = 0;
            let ghost base = snap@;
            while i < bk.len()
                invariant
                    0 <= i <= bk@.len(),
                    snap@ == base + bk@.subrange(0, i as int),
                decreases bk.len() - i,
            {
                snap.push(bk[i]);
                proof {
                    assert(base + bk@.subrange(0, i + 1) =~= (base + bk@.subrange(0, i as int)).push(bk@[i as int]));
                }
                i += 1;
            }
            proof {
                assert(bk@.subrange(0, bk@.len() as int) == bk@);
            }
            k += 1;
        }
        snap
    }

    /// Every entry, bucket by bucket.
    pub fn snapshot(&self) -> (r: ExofsResult<Vec<DedupEntry>>)
        requires
            self.wf(),
        ensures
            r matches Ok(v) && v@ == all_entries(self@.index.buckets, 256),
    {
        Ok(self.snapshot_entries())
    }

    /// Adds each entry of `snap` whose identifier is not yet known.
    pub fn restore_snapshot(&mut self, snap: &[DedupEntry]) -> (r: ExofsResult<()>)
        requires
            old(self).wf(),
        ensures
            final(self).wf(),
            r == Ok::<(), ExofsError>(()),
            final(self)@.hits == old(self)@.hits && final(self)@.misses == old(self)@.misses && final(self)@.saved == old(self)@.saved,
            final(self)@.index == restored(old(self)@.index, snap@, snap@.len() as int),
    {
        let mut i: usize = 0;
        while i < snap.len()
            invariant
                0 <= i <= snap@.len(),
                self.wf(),
                self@.index == restored(old(self)@.index, snap@, i as int),
                self.hits == old(self).hits && self.misses == old(self).misses && self.saved == old(self).saved,
            decreases snap.len() - i,
        {
            let entry = snap[i];
            if self.index.lookup(&entry.blob_id).is_none() {
                self.index.insert(entry)?;
            }
            i += 1;
        }
        Ok(())
    }
}

/// The index after adding, in order, each of the first `k` entries of `snap`
/// whose identifier it does not hold.
pub open spec fn restored(v: DedupIndexView, snap: Seq<DedupEntry>, k: int) -> DedupIndexView
    decreases k,
{
    if k <= 0 {
        v
    } else {
        let p = restored(v, snap, k - 1);
        let e = snap[k - 1];
        if absent(p.buckets[bucket_of(e.blob_id)], e.blob_id) {
            DedupIndexView {
                buckets: p.buckets.update(bucket_of(e.blob_id), p.buckets[bucket_of(e.blob_id)].push(e)),
                total: if p.total == usize::MAX { usize::MAX } else { (p.total + 1) as usize },
            }
        } else {
            p
        }
    }
}

fn wrap(a: u64, b: u64) -> (r: u64)
    ensures
        r == wadd(a, b),
{
    a.wrapping_add(b)
}

/// Removed entries of a collection, as counted on 64 bits.
pub open spec fn rep_removed(n: int) -> u64 {
    (n % 0x1_0000_0000_0000_0000) as u64
}

proof fn lemma_mod_add(a: int, b: int)
    requires
        a >= 0,
        b >= 0,
    ensures
        wadd((a % 0x1_0000_0000_0000_0000) as u64, (b % 0x1_0000_0000_0000_0000) as u64) == (a + b) % 0x1_0000_0000_0000_0000,
{
    let m: int = 0x1_0000_0000_0000_0000;
    vstd::arithmetic::div_mod::lemma_add_mod_noop(a, b, m);
    vstd::arithmetic::div_mod::lemma_mod_bound(a, m);
    vstd::arithmetic::div_mod::lemma_mod_bound(b, m);
    let s = a % m + b % m;
    if s >= m {
        vstd::arithmetic::div_mod::lemma_mod_add_multiples_vanish(s - m, m);
        vstd::arithmetic::div_mod::lemma_small_mod((s - m) as nat, m as nat);
    } else {
        vstd::arithmetic::div_mod::lemma_small_mod(s as nat, m as nat);
    }
}

proof fn lemma_dead_bytes_concat(a: Seq<DedupEntry>, b: Seq<DedupEntry>)
    ensures
        dead_bytes(a + b) == wadd_all(dead_bytes(a), b),
    decreases b.len(),
{
    if b.len() > 0 {
        lemma_dead_bytes_concat(a, b.drop_last());
        assert((a + b).drop_last() =~= a + b.drop_last());
    }
}

/// `s` plus the sizes of the entries of `b` without references, modulo 2^64.
pub open spec fn wadd_all(s: u64, b: Seq<DedupEntry>) -> u64
    decreases b.len(),
{
    if b.len() == 0 {
        s
    } else {
        let p = wadd_all(s, b.drop_last());
        if b.last().ref_count == 0 { wadd(p, b.last().size) } else { p }
    }
}

} // verus!
