//! Reading deduplicated blobs: a small cache of resolved locations and
//! reads checked against the content identifier.
use vstd::prelude::*;
use crate::types::{BlobId, DiskOffset, ExofsError, ExofsResult};
use crate::hash::{verify_blob_id, blob_id_spec};
use crate::storage::dedup_writer::{DedupWriter, DedupEntry, same_id};
use crate::storage::compression_choice::wadd;

verus! {

/// A resolved location.
#[derive(Clone, Copy, Debug)]
pub struct ResolveResult {
    pub blob_id: BlobId,
    pub offset: DiskOffset,
    pub size: u64,
    /// True when it came from the cache.
    pub cached: bool,
}

/// Capacity of the resolution cache.
pub const RESOLVE_CACHE_CAP: usize = 64;

/// A cached resolution with its last-use tick.
#[derive(Clone, Copy, Debug)]
pub struct CacheEntry {
    pub blob_id: BlobId,
    pub offset: DiskOffset,
    pub size: u64,
    pub tick: u64,
}

/// `i` is the first cached entry for `id`.
pub open spec fn first_cached(es: Seq<CacheEntry>, id: BlobId, i: int) -> bool {
    0 <= i < es.len() && same_id(es[i].blob_id, id) && forall|j: int| 0 <= j < i ==> !same_id(#[trigger] es[j].blob_id, id)
}

/// No cached entry for `id`.
pub open spec fn not_cached(es: Seq<CacheEntry>, id: BlobId) -> bool {
    forall|j: int| 0 <= j < es.len() ==> !same_id(#[trigger] es[j].blob_id, id)
}

/// `i` is the first least-recently-used entry.
pub open spec fn lru_index(es: Seq<CacheEntry>, i: int) -> bool {
    &&& 0 <= i < es.len()
    &&& forall|j: int| 0 <= j < es.len() ==> es[i].tick <= #[trigger] es[j].tick
    &&& forall|j: int| 0 <= j < i ==> es[i].tick < #[trigger] es[j].tick
}

struct ResolutionCache {
    entries: Vec<CacheEntry>,
    tick: u64,
}

impl ResolutionCache {
    fn new() -> (r: ResolutionCache)
        ensures
            r.entries@ == Seq::<CacheEntry>::empty(),
            r.tick == 0,
    {
        ResolutionCache { entries: Vec::new(), tick: 0 }
    }

    fn next_tick(&mut self) -> (r: u64)
        ensures
            r == wadd(old(self).tick, 1),
            final(self).tick == r,
            final(self).entries@ == old(self).entries@,
    {
        self.tick = self.tick.wrapping_add(1);
        self.tick
    }

    fn find(&self, id: &BlobId) -> (r: Option<usize>)
        ensures
            r matches Some(i) ==> first_cached(self.entries@, *id, i as int),
            r is None ==> not_cached(self.entries@, *id),
    {
        let mut i: usize = 0;
        while i < self.entries.len()
            invariant
                forall|j: int| 0 <= j < i ==> !same_id(#[trigger] self.entries@[j].blob_id, *id),
            decreases self.entries.len() - i,
        {
            if self.entries[i].blob_id.ct_eq(id) {
                return Some(i);
            }
            i += 1;
        }
        None
    }

    fn lookup(&mut self, id: &BlobId) -> (r: Option<ResolveResult>)
        ensures
            final(self).tick == wadd(old(self).tick, 1),
            not_cached(old(self).entries@, *id) ==> r is None && final(self).entries@ == old(self).entries@,
            forall|i: int| #[trigger] first_cached(old(self).entries@, *id, i) ==> {
                let e = old(self).entries@[i];
                &&& r == Some(ResolveResult { blob_id: *id, offset: e.offset, size: e.size, cached: true })
                &&& final(self).entries@ == old(self).entries@.update(i, CacheEntry { tick: wadd(old(self).tick, 1), ..e })
            },
    {
        let tick = self.next_tick();
        match self.find(id) {
            Some(i) => {
                proof {
                    lemma_first_cached_unique(self.entries@, *id, i as int);
                }
                let e = self.entries[i];
                self.entries.set(i, CacheEntry { tick, ..e });
                Some(ResolveResult { blob_id: *id, offset: e.offset, size: e.size, cached: true })
            },
            None => None,
        }
    }

    fn lru(&self) -> (r: Option<usize>)
        ensures
            r matches Some(i) ==> lru_index(self.entries@, i as int),
            r is None ==> self.entries@.len() == 0,
    {
        if self.entries.len() == 0 {
            return None;
        }
        let mut best: usize = 0;
        let mut i: usize = 1;
        while i < self.entries.len()
            invariant
                1 <= i <= self.entries@.len(),
                best < i,
                forall|j: int| 0 <= j < i ==> self.entries@[best as int].tick <= #[trigger] self.entries@[j].tick,
                forall|j: int| 0 <= j < best ==> self.entries@[best as int].tick < #[trigger] self.entries@[j].tick,
            decreases self.entries.len() - i,
        {
            if self.entries[i].tick < self.entries[best].tick {
                best = i;
            }
            i += 1;
        }
        Some(best)
    }

    fn insert(&mut self, id: BlobId, offset: DiskOffset, size: u64) -> (r: ExofsResult<()>)
        ensures
            r == Ok::<(), ExofsError>(()),
            final(self).tick == wadd(old(self).tick, 1),
            ({
                let fresh = CacheEntry { blob_id: id, offset, size, tick: wadd(old(self).tick, 1) };
                &&& old(self).entries@.len() < RESOLVE_CACHE_CAP ==> final(self).entries@ == old(self).entries@.push(fresh)
                &&& old(self).entries@.len() >= RESOLVE_CACHE_CAP ==> exists|v: int| #[trigger] lru_index(old(self).entries@, v)
                    && final(self).entries@ == old(self).entries@.update(v, old(self).entries@.last()).drop_last().push(fresh)
            }),
    {
        let tick = self.next_tick();
        if self.entries.len() >= RESOLVE_CACHE_CAP {
            if let Some(lru_idx) = self.lru() {
                let _ = self.entries.swap_remove(lru_idx);
            }
        }
        self.entries.push(CacheEntry { blob_id: id, offset, size, tick });
        Ok(())
    }

    fn invalidate(&mut self, id: &BlobId)
        ensures
            final(self).tick == old(self).tick,
            not_cached(old(self).entries@, *id) ==> final(self).entries@ == old(self).entries@,
            forall|i: int| #[trigger] first_cached(old(self).entries@, *id, i) ==> final(self).entries@
                == old(self).entries@.update(i, old(self).entries@.last()).drop_last(),
    {
        if let Some(pos) = self.find(id) {
            proof {
                lemma_first_cached_unique(self.entries@, *id, pos as int);
            }
            let _ = self.entries.swap_remove(pos);
        }
    }

    fn clear(&mut self)
        ensures
            final(self).entries@ == Seq::<CacheEntry>::empty(),
            final(self).tick == old(self).tick,
    {
        self.entries.clear();
    }

    fn len(&self) -> (r: usize)
        ensures
            r == self.entries@.len(),
    {
        self.entries.len()
    }
}

/// The first cached entry for an identifier is unique.
pub proof fn lemma_first_cached_unique(es: Seq<CacheEntry>, id: BlobId, i: int)
    requires
        first_cached(es, id, i),
    ensures
        forall|k: int| #[trigger] first_cached(es, id, k) ==> k == i,
{
    assert forall|k: int| #[trigger] first_cached(es, id, k) implies k == i by {
        if k < i {
            assert(!same_id(es[k].blob_id, id));
        } else if k > i {
            assert(!same_id(es[i].blob_id, id));
        }
    }
}

/// Abstract state of a reader.
pub struct DedupReaderView {
    pub cache: Seq<CacheEntry>,
    pub tick: u64,
    pub cache_hits: u64,
    pub cache_misses: u64,
    pub verify_errors: u64,
}

/// Reader of deduplicated blobs.
pub struct DedupReader {
    cache: ResolutionCache,
    cache_hits: u64,
    cache_misses: u64,
    verify_errors: u64,
}

impl View for DedupReader {
    type V = DedupReaderView;

    closed spec fn view(&self) -> DedupReaderView {
        DedupReaderView {
            cache: self.cache.entries@,
            tick: self.cache.tick,
            cache_hits: self.cache_hits,
            cache_misses: self.cache_misses,
            verify_errors: self.verify_errors,
        }
    }
}

/// What a successful read of `size` bytes checked against `id` returns:
/// at most `size` bytes that hash to `id`.
pub open spec fn read_outcome(id: BlobId, size: u64, r: ExofsResult<Vec<u8>>) -> bool {
    r matches Ok(v) ==> v@.len() <= size as usize && id.0@ == blob_id_spec(v@)
}

/// The read was refused because the bytes do not hash to the identifier.
pub open spec fn is_mismatch(r: ExofsResult<Vec<u8>>) -> bool {
    r matches Err(e) && e == ExofsError::ChecksumMismatch
}

impl DedupReader {
    /// An empty cache and zero counters.
    pub fn new() -> (r: DedupReader)
        ensures
            r@ == (DedupReaderView { cache: Seq::empty(), tick: 0, cache_hits: 0, cache_misses: 0, verify_errors: 0 }),
    {
        DedupReader { cache: ResolutionCache::new(), cache_hits: 0, cache_misses: 0, verify_errors: 0 }
    }

    /// Resolves an identifier from the cache; `NotFound` when it is not cached.
    pub fn resolve(&mut self, blob_id: &BlobId, index: &DedupWriter) -> (r: ExofsResult<ResolveResult>)
        ensures
            final(self)@.tick == wadd(old(self)@.tick, 1),
            final(self)@.verify_errors == old(self)@.verify_errors,
            not_cached(old(self)@.cache, *blob_id) ==> r == Err::<ResolveResult, ExofsError>(ExofsError::NotFound)
                && final(self)@.cache == old(self)@.cache && final(self)@.cache_hits == old(self)@.cache_hits
                && final(self)@.cache_misses == wadd(old(self)@.cache_misses, 1),
            forall|i: int| #[trigger] first_cached(old(self)@.cache, *blob_id, i) ==> {
                let e = old(self)@.cache[i];
                &&& r == Ok::<ResolveResult, ExofsError>(ResolveResult { blob_id: *blob_id, offset: e.offset, size: e.size, cached: true })
                &&& final(self)@.cache == old(self)@.cache.update(i, CacheEntry { tick: wadd(old(self)@.tick, 1), ..e })
                &&& final(self)@.cache_hits == wadd(old(self)@.cache_hits, 1)
                &&& final(self)@.cache_misses == old(self)@.cache_misses
            },
    {
        if let Some(r) = self.cache.lookup(blob_id) {
            self.cache_hits = self.cache_hits.wrapping_add(1);
            return Ok(r);
        }
        self.cache_misses = self.cache_misses.wrapping_add(1);
        let _ = index.entry_count();
        Err(ExofsError::NotFound)
    }

    /// Resolves from an index entry and caches the location.
    pub fn resolve_from_entry(&mut self, entry: &DedupEntry) -> (r: ExofsResult<ResolveResult>)
        ensures
            r == Ok::<ResolveResult, ExofsError>(ResolveResult { blob_id: entry.blob_id, offset: entry.offset, size: entry.size, cached: false }),
            final(self)@.tick == wadd(old(self)@.tick, 1),
            final(self)@.cache_hits == old(self)@.cache_hits && final(self)@.cache_misses == old(self)@.cache_misses
                && final(self)@.verify_errors == old(self)@.verify_errors,
            ({
                let fresh = CacheEntry { blob_id: entry.blob_id, offset: entry.offset, size: entry.size, tick: wadd(old(self)@.tick, 1) };
                &&& old(self)@.cache.len() < RESOLVE_CACHE_CAP ==> final(self)@.cache == old(self)@.cache.push(fresh)
                &&& old(self)@.cache.len() >= RESOLVE_CACHE_CAP ==> exists|v: int| #[trigger] lru_index(old(self)@.cache, v)
                    && final(self)@.cache == old(self)@.cache.update(v, old(self)@.cache.last()).drop_last().push(fresh)
            }),
    {
        let r = ResolveResult { blob_id: entry.blob_id, offset: entry.offset, size: entry.size, cached: false };
        let _ = self.cache.insert(entry.blob_id, entry.offset, entry.size);
        Ok(r)
    }

    /// Reads `size` bytes at `offset` and checks that they hash to `blob_id`;
    /// returns the bytes actually read.
    pub fn read_and_verify<F>(&mut self, blob_id: &BlobId, offset: DiskOffset, size: u64, read_fn: &F) -> (r: ExofsResult<Vec<u8>>)
        where
            F: Fn(DiskOffset, &mut [u8]) -> ExofsResult<usize>,
        requires
            forall|o: DiskOffset, b: &mut [u8]| read_fn.requires((o, b)),
        ensures
            read_outcome(*blob_id, size, r),
            final(self)@.cache == old(self)@.cache && final(self)@.tick == old(self)@.tick,
            final(self)@.cache_hits == old(self)@.cache_hits && final(self)@.cache_misses == old(self)@.cache_misses,
            r is Ok ==> final(self)@.verify_errors == old(self)@.verify_errors,
            final(self)@.verify_errors == old(self)@.verify_errors || (is_mismatch(r)
                && final(self)@.verify_errors == wadd(old(self)@.verify_errors, 1)),
            r matches Err(e) ==> e == ExofsError::InvalidSize
                || (exists|b: &mut [u8]| #[trigger] call_ensures(*read_fn, (offset, b), Err::<usize, ExofsError>(e)))
                || (e == ExofsError::ChecksumMismatch && exists|b: &mut [u8], n: usize| #[trigger] call_ensures(*read_fn, (offset, b),
                    Ok::<usize, ExofsError>(n)) && n <= final(b)@.len() && blob_id.0@ != blob_id_spec(final(b)@.subrange(0, n as int))),
            r matches Ok(v) ==> exists|b: &mut [u8], n: usize| #[trigger] call_ensures(*read_fn, (offset, b), Ok::<usize, ExofsError>(n))
                && n <= final(b)@.len() && v@ == final(b)@.subrange(0, n as int),
    {
        let sz = size as usize;
        let mut buf: Vec<u8> = Vec::new();
        let mut i: usize = 0;
        while i < sz
            invariant
                0 <= i <= sz,
                buf@.len() == i,
            decreases sz - i,
        {
            buf.push(0u8);
            i += 1;
        }
        let sl = buf.as_mut_slice();
        let n = match read_fn(offset, sl) {
            Ok(n) => n,
            Err(e) => {
                return Err(e);
            },
        };
        if n > buf.len() || buf.len() != sz {
            // A reader that reports more bytes than the slice holds, or changed its length, is refused.
            return Err(ExofsError::InvalidSize);
        }
        proof {
            assert(exists|b: &mut [u8], m: usize| #[trigger] call_ensures(*read_fn, (offset, b), Ok::<usize, ExofsError>(m))
                && m == n && final(b)@ == buf@);
        }
        let got = vstd::slice::slice_subrange(buf.as_slice(), 0, n);
        if !verify_blob_id(blob_id, got) {
            self.verify_errors = self.verify_errors.wrapping_add(1);
            return Err(ExofsError::ChecksumMismatch);
        }
        buf.truncate(n);
        proof {
            assert(buf@ =~= got@);
        }
        Ok(buf)
    }

    /// Drops the cached resolution of `blob_id`.
    pub fn invalidate(&mut self, blob_id: &BlobId)
        ensures
            final(self)@.tick == old(self)@.tick && final(self)@.cache_hits == old(self)@.cache_hits
                && final(self)@.cache_misses == old(self)@.cache_misses && final(self)@.verify_errors == old(self)@.verify_errors,
            not_cached(old(self)@.cache, *blob_id) ==> final(self)@.cache == old(self)@.cache,
            forall|i: int| #[trigger] first_cached(old(self)@.cache, *blob_id, i) ==> final(self)@.cache
                == old(self)@.cache.update(i, old(self)@.cache.last()).drop_last(),
    {
        self.cache.invalidate(blob_id);
    }

    /// Drops every cached resolution.
    pub fn invalidate_all(&mut self)
        ensures
            final(self)@ == (DedupReaderView { cache: Seq::empty(), ..old(self)@ }),
    {
        self.cache.clear();
    }

    /// Cache hits.
    pub fn cache_hit_count(&self) -> (r: u64)
        ensures
            r == self@.cache_hits,
    {
        self.cache_hits
    }

    /// Cache misses.
    pub fn cache_miss_count(&self) -> (r: u64)
        ensures
            r == self@.cache_misses,
    {
        self.cache_misses
    }

    /// Reads whose content did not match its identifier.
    pub fn verify_error_count(&self) -> (r: u64)
        ensures
            r == self@.verify_errors,
    {
        self.verify_errors
    }

    /// Cached resolutions.
    pub fn cache_size(&self) -> (r: usize)
        ensures
            r == self@.cache.len(),
    {
        self.cache.len()
    }

    /// Cache hits per hundred lookups.
    pub fn cache_hit_rate_pct(&self) -> (r: u64)
        ensures
            ({
                let t = if self@.cache_hits + self@.cache_misses > u64::MAX { u64::MAX as int } else { self@.cache_hits + self@.cache_misses };
                r == (if t == 0 { 0 } else { self@.cache_hits * 100 / t })
            }),
    {
        pct(self.cache_hits, self.cache_hits.saturating_add(self.cache_misses))
    }

    /// Counters of the reader.
    pub fn stats(&self) -> (r: DedupReadStats)
        ensures
            r.total_reads == (if self@.cache_hits + self@.cache_misses > u64::MAX { u64::MAX as int } else { self@.cache_hits + self@.cache_misses }),
            r.cache_hits == self@.cache_hits,
            r.cache_misses == self@.cache_misses,
            r.verify_errors == self@.verify_errors,
            r.bytes_served == 0,
    {
        DedupReadStats {
            total_reads: self.cache_hits.saturating_add(self.cache_misses),
            cache_hits: self.cache_hits,
            cache_misses: self.cache_misses,
            verify_errors: self.verify_errors,
            bytes_served: 0,
        }
    }
}

/// `a * 100 / t` (0 when `t` is 0), for `a <= t`.
fn pct(a: u64, t: u64) -> (r: u64)
    requires
        a <= t,
    ensures
        r == (if t == 0 { 0 } else { a * 100 / (t as int) }),
{
    if t == 0 {
        0
    } else {
        proof {
            assert(a * 100 / (t as int) <= 100) by (nonlinear_arith)
                requires a <= t, t > 0;
        }
        (a as u128 * 100 / t as u128) as u64
    }
}

impl Default for DedupReader {
    fn default() -> (r: DedupReader)
        ensures
            r@ == (DedupReaderView { cache: Seq::empty(), tick: 0, cache_hits: 0, cache_misses: 0, verify_errors: 0 }),
    {
        DedupReader::new()
    }
}

/// Reads through the resolution cache of a reader.
pub struct DedupReadPipeline<'a> {
    reader: &'a mut DedupReader,
    writer: &'a DedupWriter,
}

impl<'a> DedupReadPipeline<'a> {
    /// The state of the reader (spec).
    pub closed spec fn reader_view(&self) -> DedupReaderView {
        self.reader@
    }

    /// A pipeline over a reader and the index.
    pub fn new(reader: &'a mut DedupReader, writer: &'a DedupWriter) -> (r: DedupReadPipeline<'a>)
        ensures
            r.reader_view() == old(reader)@,
    {
        DedupReadPipeline { reader, writer }
    }

    /// Reads a blob whose location is cached; `NotFound` otherwise.
    pub fn read_blob<F>(&mut self, blob_id: &BlobId, read_fn: &F) -> (r: ExofsResult<Vec<u8>>)
        where
            F: Fn(DiskOffset, &mut [u8]) -> ExofsResult<usize>,
        requires
            forall|o: DiskOffset, b: &mut [u8]| read_fn.requires((o, b)),
        ensures
            not_cached(old(self).reader_view().cache, *blob_id) ==> r == Err::<Vec<u8>, ExofsError>(ExofsError::NotFound),
            forall|i: int| #[trigger] first_cached(old(self).reader_view().cache, *blob_id, i) ==> read_outcome(*blob_id,
                old(self).reader_view().cache[i].size, r),
    {
        if let Some(res) = self.reader.cache.lookup(blob_id) {
            self.reader.cache_hits = self.reader.cache_hits.wrapping_add(1);
            return self.reader.read_and_verify(blob_id, res.offset, res.size, read_fn);
        }
        Err(ExofsError::NotFound)
    }
}

/// Counters of a reader.
#[derive(Clone, Copy, Debug)]
pub struct DedupReadStats {
    pub total_reads: u64,
    pub cache_hits: u64,
    pub cache_misses: u64,
    pub verify_errors: u64,
    pub bytes_served: u64,
}

impl Default for DedupReadStats {
    fn default() -> (r: DedupReadStats)
        ensures
            r.total_reads == 0 && r.cache_hits == 0 && r.cache_misses == 0 && r.verify_errors == 0 && r.bytes_served == 0,
    {
        DedupReadStats { total_reads: 0, cache_hits: 0, cache_misses: 0, verify_errors: 0, bytes_served: 0 }
    }
}

impl DedupReadStats {
    /// Cache hits per hundred lookups.
    pub fn cache_hit_pct(&self) -> (r: u64)
        ensures
            ({
                let t = if self.cache_hits + self.cache_misses > u64::MAX { u64::MAX as int } else { self.cache_hits + self.cache_misses };
                r == (if t == 0 { 0 } else { self.cache_hits * 100 / t })
            }),
    {
        pct(self.cache_hits, self.cache_hits.saturating_add(self.cache_misses))
    }

    /// Verification errors per hundred reads.
    pub fn error_pct(&self) -> (r: u64)
        requires
            self.verify_errors * 100 <= u64::MAX,
        ensures
            r == (if self.total_reads == 0 { 0 } else { self.verify_errors * 100 / (self.total_reads as int) }),
    {
        if self.total_reads == 0 {
            0
        } else {
            self.verify_errors * 100 / self.total_reads
        }
    }
}

/// True iff `data` hashes to `blob_id`.
pub fn verify_blob_integrity(data: &[u8], blob_id: &BlobId) -> (r: bool)
    ensures
        r == (blob_id.0@ == blob_id_spec(data@)),
{
    verify_blob_id(blob_id, data)
}

/// Reads the blob of an index entry and checks it.
pub fn resolve_and_read<F>(blob_id: &BlobId, entry: &DedupEntry, reader: &mut DedupReader, read_fn: &F) -> (r: ExofsResult<Vec<u8>>)
    where
        F: Fn(DiskOffset, &mut [u8]) -> ExofsResult<usize>,
    requires
        forall|o: DiskOffset, b: &mut [u8]| read_fn.requires((o, b)),
    ensures
        read_outcome(*blob_id, entry.size, r),
{
    reader.read_and_verify(blob_id, entry.offset, entry.size, read_fn)
}

/// Outcome of one blob of a batch.
pub struct MultiDedupRead {
    pub blob_id: BlobId,
    pub data: Vec<u8>,
    pub ok: bool,
}

/// Reads and checks each blob in order.
pub fn read_blobs_batch<F>(items: &[(BlobId, DiskOffset, u64)], reader: &mut DedupReader, read_fn: &F) -> (r: ExofsResult<Vec<MultiDedupRead>>)
    where
        F: Fn(DiskOffset, &mut [u8]) -> ExofsResult<usize>,
    requires
        forall|o: DiskOffset, b: &mut [u8]| read_fn.requires((o, b)),
    ensures
        r matches Ok(v) && v@.len() == items@.len() && forall|i: int| 0 <= i < items@.len() ==> {
            let it = #[trigger] v@[i];
            &&& it.blob_id == items@[i].0
            &&& it.ok ==> read_outcome(items@[i].0, items@[i].2, Ok::<Vec<u8>, ExofsError>(it.data))
            &&& !it.ok ==> it.data@.len() == 0
        },
{
    let mut results: Vec<MultiDedupRead> = Vec::new();
    let mut i: usize = 0;
    while i < items.len()
        invariant
            0 <= i <= items@.len(),
            results@.len() == i,
            forall|b: DiskOffset, s: &mut [u8]| read_fn.requires((b, s)),
            forall|k: int| 0 <= k < i ==> {
                let it = #[trigger] results@[k];
                &&& it.blob_id == items@[k].0
                &&& it.ok ==> read_outcome(items@[k].0, items@[k].2, Ok::<Vec<u8>, ExofsError>(it.data))
                &&& !it.ok ==> it.data@.len() == 0
            },
        decreases items.len() - i,
    {
        let (blob_id, offset, size) = items[i];
        let ghost before = results@;
        match reader.read_and_verify(&blob_id, offset, size, read_fn) {
            Ok(data) => {
                results.push(MultiDedupRead { blob_id, data, ok: true });
            },
            Err(_) => {
                results.push(MultiDedupRead { blob_id, data: Vec::new(), ok: false });
            },
        }
        proof {
            assert forall|k: int| 0 <= k < i + 1 implies {
                let it = #[trigger] results@[k];
                &&& it.blob_id == items@[k].0
                &&& it.ok ==> read_outcome(items@[k].0, items@[k].2, Ok::<Vec<u8>, ExofsError>(it.data))
                &&& !it.ok ==> it.data@.len() == 0
            } by {
                if k < i {
                    assert(results@[k] == before[k]);
                }
            }
        }
        i += 1;
    }
    Ok(results)
}

} // verus!
