//! Write-back LRU cache of 4 KB blocks.
//!
//! Reads go to the cache first and to a caller-supplied reader on a miss;
//! writes land in the cache as dirty blocks and reach the disk on a flush.
use vstd::prelude::*;
use crate::types::{DiskOffset, ExofsError, ExofsResult};
use crate::storage::layout::BLOCK_SIZE;
use crate::storage::heap_allocator::wrap_add;

verus! {

/// State of a cached block.
#[derive(Clone, Copy, Debug, PartialEq, Eq, Structural)]
pub enum CacheBlockState {
    /// Same bytes as on disk.
    Clean,
    /// Modified; must be flushed.
    Dirty,
}

/// A cached block.
pub(crate) struct CacheBlock {
    offset: DiskOffset,
    data: Vec<u8>,
    state: CacheBlockState,
    lru_tick: u64,
    hits: u32,
}

/// Abstract view of a cached block.
pub struct CacheEntryView {
    pub offset: DiskOffset,
    pub data: Seq<u8>,
    pub dirty: bool,
    pub lru_tick: u64,
    pub hits: u32,
}

impl CacheBlock {
    pub(crate) closed spec fn entry(&self) -> CacheEntryView {
        CacheEntryView {
            offset: self.offset,
            data: self.data@,
            dirty: self.state == CacheBlockState::Dirty,
            lru_tick: self.lru_tick,
            hits: self.hits,
        }
    }

    fn new(offset: DiskOffset, data: Vec<u8>, lru_tick: u64) -> (r: CacheBlock)
        ensures
            r.entry() == (CacheEntryView { offset, data: data@, dirty: false, lru_tick, hits: 0 }),
    {
        CacheBlock { offset, data, state: CacheBlockState::Clean, lru_tick, hits: 0 }
    }

    fn touch(&mut self, tick: u64)
        ensures
            final(self).entry() == (CacheEntryView {
                lru_tick: tick,
                hits: if old(self).hits == u32::MAX { u32::MAX } else { (old(self).hits + 1) as u32 },
                ..old(self).entry()
            }),
    {
        self.lru_tick = tick;
        self.hits = self.hits.saturating_add(1);
    }

    fn mark_dirty(&mut self)
        ensures
            final(self).entry() == (CacheEntryView { dirty: true, ..old(self).entry() }),
    {
        self.state = CacheBlockState::Dirty;
    }

    fn mark_clean(&mut self)
        ensures
            final(self).entry() == (CacheEntryView { dirty: false, ..old(self).entry() }),
    {
        self.state = CacheBlockState::Clean;
    }

    fn is_dirty(&self) -> (r: bool)
        ensures
            r == self.entry().dirty,
    {
        self.state == CacheBlockState::Dirty
    }
}

/// The entry may be picked when only clean entries are eligible (`only_clean`).
pub open spec fn eligible(e: CacheEntryView, only_clean: bool) -> bool {
    !only_clean || !e.dirty
}

/// `i` is the first least-recently-used eligible entry.
pub open spec fn lru_at(es: Seq<CacheEntryView>, only_clean: bool, i: int) -> bool {
    &&& 0 <= i < es.len()
    &&& eligible(es[i], only_clean)
    &&& forall|j: int| 0 <= j < es.len() && #[trigger] eligible(es[j], only_clean) ==> es[i].lru_tick <= es[j].lru_tick
    &&& forall|j: int| 0 <= j < i && #[trigger] eligible(es[j], only_clean) ==> es[i].lru_tick < es[j].lru_tick
}

/// Every cached block is dirty (or there is none).
pub open spec fn no_clean(es: Seq<CacheEntryView>) -> bool {
    forall|j: int| 0 <= j < es.len() ==> !#[trigger] eligible(es[j], true)
}

/// The eviction victim: the LRU clean block; a dirty block is never evicted,
/// since it must be flushed first.
pub open spec fn victim_ok(es: Seq<CacheEntryView>, r: Option<usize>) -> bool {
    match r {
        None => no_clean(es),
        Some(i) => lru_at(es, true, i as int),
    }
}

/// The cache is full and only dirty blocks could make room.
pub open spec fn full_of_dirty(v: BlockCacheView) -> bool {
    v.capacity > 0 && v.entries.len() >= v.capacity && no_clean(v.entries)
}

/// Index of the entry at `off`.
pub open spec fn entry_at(es: Seq<CacheEntryView>, off: DiskOffset, i: int) -> bool {
    0 <= i < es.len() && es[i].offset == off
}

/// No entry at `off`.
pub open spec fn no_entry(es: Seq<CacheEntryView>, off: DiskOffset) -> bool {
    forall|j: int| 0 <= j < es.len() ==> #[trigger] es[j].offset != off
}

/// Number of dirty entries.
pub open spec fn dirty_in(es: Seq<CacheEntryView>) -> nat
    decreases es.len(),
{
    if es.len() == 0 {
        0
    } else {
        dirty_in(es.drop_last()) + (if es.last().dirty { 1nat } else { 0nat })
    }
}

struct CacheState {
    entries: Vec<CacheBlock>,
    capacity: usize,
    tick: u64,
}

impl CacheState {
    closed spec fn view_entries(&self) -> Seq<CacheEntryView> {
        self.entries@.map_values(|b: CacheBlock| b.entry())
    }

    fn new(capacity: usize) -> (r: CacheState)
        ensures
            r.view_entries() == Seq::<CacheEntryView>::empty(),
            r.capacity == capacity,
            r.tick == 0,
    {
        CacheState { entries: Vec::new(), capacity, tick: 0 }
    }

    fn next_tick(&mut self) -> (r: u64)
        ensures
            r == wrap_add(old(self).tick, 1),
            final(self).tick == r,
            final(self).entries@ == old(self).entries@,
            final(self).capacity == old(self).capacity,
    {
        self.tick = self.tick.wrapping_add(1);
        self.tick
    }

    fn find(&self, offset: DiskOffset) -> (r: Option<usize>)
        ensures
            r matches Some(i) ==> entry_at(self.view_entries(), offset, i as int) && forall|j: int| 0 <= j < i ==>
                #[trigger] self.view_entries()[j].offset != offset,
            r is None ==> no_entry(self.view_entries(), offset),
    {
        let mut i: usize = 0;
        while i < self.entries.len()
            invariant
                forall|j: int| 0 <= j < i ==> #[trigger] self.view_entries()[j].offset != offset,
            decreases self.entries.len() - i,
        {
            proof {
                assert(self.view_entries()[i as int] == self.entries@[i as int].entry());
            }
            if self.entries[i].offset == offset {
                return Some(i);
            }
            i += 1;
        }
        None
    }

    fn find_ref(&self, offset: DiskOffset) -> (r: Option<usize>)
        ensures
            r matches Some(i) ==> entry_at(self.view_entries(), offset, i as int) && forall|j: int| 0 <= j < i ==>
                #[trigger] self.view_entries()[j].offset != offset,
            r is None ==> no_entry(self.view_entries(), offset),
    {
        self.find(offset)
    }

    fn is_full(&self) -> (r: bool)
        ensures
            r == (self.entries@.len() >= self.capacity),
    {
        self.entries.len() >= self.capacity
    }

    fn lru_among(&self, only_clean: bool) -> (r: Option<usize>)
        ensures
            r matches Some(i) ==> lru_at(self.view_entries(), only_clean, i as int),
            r is None ==> forall|j: int| 0 <= j < self.view_entries().len() ==> !#[trigger] eligible(self.view_entries()[j], only_clean),
    {
        let ghost es = self.view_entries();
        let mut best: Option<usize> = None;
        let mut best_tick: u64 = 0;
        let mut i: usize = 0;
        while i < self.entries.len()
            invariant
                es == self.view_entries(),
                es.len() == self.entries@.len(),
                0 <= i <= es.len(),
                best matches Some(b) ==> {
                    &&& b < i
                    &&& eligible(es[b as int], only_clean)
                    &&& es[b as int].lru_tick == best_tick
                    &&& forall|j: int| 0 <= j < i && #[trigger] eligible(es[j], only_clean) ==> best_tick <= es[j].lru_tick
                    &&& forall|j: int| 0 <= j < b && #[trigger] eligible(es[j], only_clean) ==> best_tick < es[j].lru_tick
                },
                best is None ==> forall|j: int| 0 <= j < i ==> !#[trigger] eligible(es[j], only_clean),
            decreases es.len() - i,
        {
            let e = &self.entries[i];
            proof {
                assert(es[i as int] == self.entries@[i as int].entry());
            }
            if !only_clean || !e.is_dirty() {
                let better = match best {
                    None => true,
                    Some(_) => e.lru_tick < best_tick,
                };
                if better {
                    best = Some(i);
                    best_tick = e.lru_tick;
                }
            }
            i += 1;
        }
        best
    }

    /// The LRU clean block, if any.
    fn lru_victim(&self) -> (r: Option<usize>)
        ensures
            victim_ok(self.view_entries(), r),
    {
        self.lru_among(true)
    }

    fn dirty_count(&self) -> (r: usize)
        ensures
            r == dirty_in(self.view_entries()),
    {
        let ghost es = self.view_entries();
        let mut n: usize = 0;
        let mut i: usize = 0;
        while i < self.entries.len()
            invariant
                es == self.view_entries(),
                es.len() == self.entries@.len(),
                0 <= i <= es.len(),
                n == dirty_in(es.subrange(0, i as int)),
                n <= i,
            decreases es.len() - i,
        {
            proof {
                assert(es.subrange(0, i + 1).drop_last() == es.subrange(0, i as int));
            }
            proof {
                assert(es[i as int] == self.entries@[i as int].entry());
            }
            if self.entries[i].is_dirty() {
                n += 1;
            }
            i += 1;
        }
        proof {
            assert(es.subrange(0, es.len() as int) == es);
        }
        n
    }
}

/// Abstract state of a block cache.
pub struct BlockCacheView {
    pub entries: Seq<CacheEntryView>,
    pub capacity: usize,
    pub tick: u64,
    pub hits: u64,
    pub misses: u64,
    pub evictions: u64,
    pub flushes: u64,
    pub dirty_writes: u64,
}

/// Write-back LRU cache of blocks.
pub struct BlockCache {
    state: CacheState,
    hits: u64,
    misses: u64,
    evictions: u64,
    flushes: u64,
    dirty_writes: u64,
}

impl View for BlockCache {
    type V = BlockCacheView;

    closed spec fn view(&self) -> BlockCacheView {
        BlockCacheView {
            entries: self.state.view_entries(),
            capacity: self.state.capacity,
            tick: self.state.tick,
            hits: self.hits,
            misses: self.misses,
            evictions: self.evictions,
            flushes: self.flushes,
            dirty_writes: self.dirty_writes,
        }
    }
}

/// Every cached block holds 4096 bytes.
pub open spec fn all_blocks(es: Seq<CacheEntryView>) -> bool {
    forall|i: int| 0 <= i < es.len() ==> (#[trigger] es[i]).data.len() == 4096
}

/// No two cached blocks share an offset.
pub open spec fn distinct_offsets(es: Seq<CacheEntryView>) -> bool {
    forall|i: int, j: int| 0 <= i < j < es.len() ==> (#[trigger] es[i]).offset != (#[trigger] es[j]).offset
}

/// Cache invariant: at most `capacity` blocks, each of 4096 bytes, at distinct offsets.
pub open spec fn cache_wf(v: BlockCacheView) -> bool {
    &&& v.entries.len() <= v.capacity
    &&& all_blocks(v.entries)
    &&& distinct_offsets(v.entries)
}

/// Removing an entry by a swap with the last one keeps the invariant.
pub proof fn lemma_swap_remove(es: Seq<CacheEntryView>, i: int)
    requires
        0 <= i < es.len(),
        all_blocks(es),
        distinct_offsets(es),
    ensures
        all_blocks(es.update(i, es.last()).drop_last()),
        distinct_offsets(es.update(i, es.last()).drop_last()),
        forall|off: DiskOffset| no_entry(es, off) ==> #[trigger] no_entry(es.update(i, es.last()).drop_last(), off),
{
    let n = es.update(i, es.last()).drop_last();
    assert forall|a: int, b: int| 0 <= a < b < n.len() implies (#[trigger] n[a]).offset != (#[trigger] n[b]).offset by {
        if a == i {
            assert(es[es.len() - 1].offset != es[b].offset);
        } else if b == i {
            assert(es[a].offset != es[es.len() - 1].offset);
        } else {
            assert(es[a].offset != es[b].offset);
        }
    }
    assert forall|off: DiskOffset| no_entry(es, off) implies #[trigger] no_entry(n, off) by {
        assert forall|j: int| 0 <= j < n.len() implies #[trigger] n[j].offset != off by {
            if j == i {
                assert(es[es.len() - 1].offset != off);
            } else {
                assert(es[j].offset != off);
            }
        }
    }
}

/// Appending a block of 4096 bytes at a fresh offset keeps the invariant.
pub proof fn lemma_push(es: Seq<CacheEntryView>, e: CacheEntryView)
    requires
        all_blocks(es),
        distinct_offsets(es),
        no_entry(es, e.offset),
        e.data.len() == 4096,
    ensures
        all_blocks(es.push(e)),
        distinct_offsets(es.push(e)),
{
    let n = es.push(e);
    assert forall|a: int, b: int| 0 <= a < b < n.len() implies (#[trigger] n[a]).offset != (#[trigger] n[b]).offset by {
        if b == es.len() {
            assert(es[a].offset != e.offset);
        } else {
            assert(es[a].offset != es[b].offset);
        }
    }
}

/// The entries after inserting a block at `off` with bytes `data`, dirty or
/// not, at tick `t`, evicting `victim` first when the cache is full.
pub open spec fn inserted(es: Seq<CacheEntryView>, victim: Option<usize>, off: DiskOffset, data: Seq<u8>, dirty: bool, t: u64) -> Seq<CacheEntryView> {
    let base = match victim {
        Some(i) => es.update(i as int, es.last()).drop_last(),
        None => es,
    };
    base.push(CacheEntryView { offset: off, data, dirty, lru_tick: t, hits: 0 })
}

/// The entries with entry `i` touched at tick `t`.
pub open spec fn touched(es: Seq<CacheEntryView>, i: int, t: u64) -> Seq<CacheEntryView> {
    es.update(i, CacheEntryView {
        lru_tick: t,
        hits: if es[i].hits == u32::MAX { u32::MAX } else { (es[i].hits + 1) as u32 },
        ..es[i]
    })
}

/// Number of entries that a flush made clean.
pub open spec fn cleaned(o: Seq<CacheEntryView>, n: Seq<CacheEntryView>, k: int) -> nat
    decreases k,
{
    if k <= 0 {
        0
    } else {
        cleaned(o, n, k - 1) + (if o[k - 1].dirty && !n[k - 1].dirty { 1nat } else { 0nat })
    }
}

/// The cache after storing a block at `off` (absent from the cache) with
/// bytes `data` at tick `t`, evicting a victim first when the cache is full.
pub open spec fn insert_post(old: BlockCacheView, new: BlockCacheView, off: DiskOffset, data: Seq<u8>, dirty: bool, t: u64) -> bool {
    if old.entries.len() >= old.capacity {
        exists|v: usize| #[trigger] victim_ok(old.entries, Some(v)) && new == (BlockCacheView {
            entries: inserted(old.entries, Some(v), off, data, dirty, t),
            evictions: wrap_add(old.evictions, 1),
            ..old
        })
    } else {
        new == (BlockCacheView { entries: inserted(old.entries, None, off, data, dirty, t), ..old })
    }
}

/// A zero-filled block.
fn zero_block() -> (r: Vec<u8>)
    ensures
        r@ == Seq::new(4096, |i: int| 0u8),
{
    let mut v: Vec<u8> = Vec::new();
    let mut i: usize = 0;
    while i < 4096
        invariant
            0 <= i <= 4096,
            v@ == Seq::new(i as nat, |k: int| 0u8),
        decreases 4096 - i,
    {
        v.push(0u8);
        i += 1;
    }
    v
}

/// Copies `src[..4096]` over `dst[..4096]`.
fn copy_block(dst: &mut [u8], src: &[u8])
    requires
        old(dst)@.len() >= 4096,
        src@.len() >= 4096,
    ensures
        final(dst)@ == src@.subrange(0, 4096) + old(dst)@.subrange(4096, old(dst)@.len() as int),
{
    let mut i: usize = 0;
    while i < 4096
        invariant
            0 <= i <= 4096,
            src@.len() >= 4096,
            old(dst)@.len() >= 4096,
            dst@.len() == old(dst)@.len(),
            forall|k: int| 0 <= k < i ==> dst@[k] == src@[k],
            forall|k: int| i <= k < dst@.len() ==> dst@[k] == old(dst)@[k],
        decreases 4096 - i,
    {
        dst[i] = src[i];
        i += 1;
    }
    proof {
        assert(dst@ == src@.subrange(0, 4096) + old(dst)@.subrange(4096, old(dst)@.len() as int));
    }
}

impl BlockCache {
    /// The cache invariant holds.
    pub closed spec fn wf(&self) -> bool {
        &&& cache_wf(self@)
        &&& self.state.entries@.len() == self.state.view_entries().len()
    }

    /// A well-formed cache holds whole blocks at distinct offsets, within its capacity.
    pub proof fn lemma_wf(&self)
        requires
            self.wf(),
        ensures
            cache_wf(self@),
    {
    }

    /// An empty cache of `capacity` blocks.
    pub fn new(capacity: usize) -> (r: BlockCache)
        ensures
            r.wf(),
            r@ == (BlockCacheView {
                entries: Seq::empty(),
                capacity,
                tick: 0,
                hits: 0,
                misses: 0,
                evictions: 0,
                flushes: 0,
                dirty_writes: 0,
            }),
    {
        BlockCache {
            state: CacheState::new(capacity),
            hits: 0,
            misses: 0,
            evictions: 0,
            flushes: 0,
            dirty_writes: 0,
        }
    }

    /// Reads the block at `offset` into `out_buf[..4096]`: from the cache on a
    /// hit, else through `read_fn` into a block of zeros, which is then cached
    /// clean.
    pub fn read_block<F>(&mut self, offset: DiskOffset, out_buf: &mut [u8], read_fn: &F) -> (r: ExofsResult<usize>)
        where
            F: Fn(DiskOffset, &mut [u8]) -> ExofsResult<usize>,
        requires
            old(self).wf(),
            forall|o: DiskOffset, b: &mut [u8]| read_fn.requires((o, b)),
        ensures
            final(self).wf(),
            old(out_buf)@.len() < 4096 ==> r == Err::<usize, ExofsError>(ExofsError::InvalidArgument)
                && final(self)@ == old(self)@ && final(out_buf)@ == old(out_buf)@,
            old(out_buf)@.len() >= 4096 ==> {
                let o = old(self)@;
                let t = wrap_add(o.tick, 1);
                let rest = old(out_buf)@.subrange(4096, old(out_buf)@.len() as int);
                &&& final(out_buf)@.len() == old(out_buf)@.len()
                &&& forall|i: int| #[trigger] entry_at(o.entries, offset, i) ==> {
                    &&& r == Ok::<usize, ExofsError>(4096)
                    &&& final(out_buf)@ == o.entries[i].data + rest
                    &&& final(self)@ == (BlockCacheView { entries: touched(o.entries, i, t), tick: t, hits: wrap_add(o.hits, 1), ..o })
                }
                &&& no_entry(o.entries, offset) ==> {
                    ||| (r is Err && final(self)@ == (BlockCacheView { tick: t, ..o }) && ((r == Err::<usize, ExofsError>(ExofsError::InvalidSize) && exists|b: &mut [u8], n: usize| #[trigger] call_ensures(*read_fn,
                        (offset, b), Ok::<usize, ExofsError>(n)) && final(b)@.len() != 4096)
                        || exists|b: &mut [u8], e: ExofsError| #[trigger] call_ensures(*read_fn, (offset, b), Err::<usize, ExofsError>(e))
                            && r == Err::<usize, ExofsError>(e)))
                    ||| exists|data: Seq<u8>| {
                        &&& data.len() == 4096
                        &&& final(out_buf)@ == data + rest
                        &&& r matches Ok(n) ==> exists|b: &mut [u8]| #[trigger] call_ensures(*read_fn, (offset, b), Ok::<usize, ExofsError>(n))
                            && final(b)@ == data
                        &&& r matches Ok(n) ==> insert_post(BlockCacheView { tick: wrap_add(t, 1), ..o },
                                BlockCacheView { misses: o.misses, ..final(self)@ }, offset, data, false, wrap_add(t, 1))
                                && final(self)@.misses == wrap_add(o.misses, 1)
                        &&& r is Err ==> final(self)@ == (BlockCacheView { tick: wrap_add(t, 1), ..o }) && (
                                (r == Err::<usize, ExofsError>(ExofsError::NoMemory) && o.capacity == 0)
                                || (r == Err::<usize, ExofsError>(ExofsError::BufferFull) && full_of_dirty(o)))
                        &&& o.capacity > 0 && !full_of_dirty(o) ==> r is Ok
                    }
                }
            },
            old(out_buf)@.len() >= 4096 && old(self)@.capacity > 0 && !full_of_dirty(old(self)@)
                && (forall|o: DiskOffset, b: &mut [u8], e: ExofsError| !(#[trigger] call_ensures(*read_fn, (o, b), Err::<usize, ExofsError>(e))))
                && (forall|o: DiskOffset, b: &mut [u8], n: usize| #[trigger] call_ensures(*read_fn, (o, b), Ok::<usize, ExofsError>(n))
                ==> final(b)@.len() == b@.len()) ==> r is Ok,
    {
        if out_buf.len() < BLOCK_SIZE as usize {
            return Err(ExofsError::InvalidArgument);
        }
        let tick = self.state.next_tick();
        if let Some(i) = self.state.find(offset) {
            proof {
                assert(self@.entries[i as int] == self.state.entries@[i as int].entry());
            }
            copy_block(out_buf, self.state.entries[i].data.as_slice());
            self.state.entries[i].touch(tick);
            self.hits = self.hits.wrapping_add(1);
            proof {
                assert(self@.entries == touched(old(self)@.entries, i as int, tick));
            }
            return Ok(4096);
        }
        let mut buf = zero_block();
        let ghost b0 = buf@;
        let n = read_fn(offset, buf.as_mut_slice())?;
        if buf.len() != BLOCK_SIZE as usize {
            // A reader that changed the length of the slice it was given is refused.
            proof {
                assert(exists|b: &mut [u8], m: usize| #[trigger] call_ensures(*read_fn, (offset, b), Ok::<usize, ExofsError>(m))
                    && b@ == b0 && final(b)@ == buf@);
            }
            return Err(ExofsError::InvalidSize);
        }
        copy_block(out_buf, buf.as_slice());
        self.insert_clean(offset, buf)?;
        self.misses = self.misses.wrapping_add(1);
        Ok(n)
    }

    /// Stores `data` (one block) at `offset` as dirty, in place when cached.
    pub fn write_block_dirty(&mut self, offset: DiskOffset, data: &[u8]) -> (r: ExofsResult<()>)
        requires
            old(self).wf(),
        ensures
            final(self).wf(),
            data@.len() != 4096 ==> r == Err::<(), ExofsError>(ExofsError::InvalidArgument) && final(self)@ == old(self)@,
            r is Ok ==> exists|i: int| #[trigger] entry_at(final(self)@.entries, offset, i) && final(self)@.entries[i].data == data@,
            data@.len() == 4096 ==> {
                let o = old(self)@;
                let t = wrap_add(o.tick, 1);
                &&& forall|i: int| #[trigger] entry_at(o.entries, offset, i) ==> r == Ok::<(), ExofsError>(()) && final(self)@ == (BlockCacheView {
                    entries: touched(o.entries, i, t).update(i, CacheEntryView { data: data@, dirty: true, ..touched(o.entries, i, t)[i] }),
                    tick: t,
                    dirty_writes: wrap_add(o.dirty_writes, 1),
                    ..o
                })
                &&& no_entry(o.entries, offset) && o.capacity == 0 ==> r == Err::<(), ExofsError>(ExofsError::NoMemory)
                    && final(self)@ == (BlockCacheView { tick: t, ..o })
                &&& no_entry(o.entries, offset) && full_of_dirty(o) ==> r == Err::<(), ExofsError>(ExofsError::BufferFull)
                    && final(self)@ == (BlockCacheView { tick: t, ..o })
                &&& no_entry(o.entries, offset) && o.capacity > 0 && !full_of_dirty(o) ==> r == Ok::<(), ExofsError>(()) && insert_post(
                    BlockCacheView { tick: t, ..o }, BlockCacheView { dirty_writes: o.dirty_writes, ..final(self)@ }, offset, data@, true, t)
                    && final(self)@.dirty_writes == wrap_add(o.dirty_writes, 1)
            },
    {
        if data.len() != BLOCK_SIZE as usize {
            return Err(ExofsError::InvalidArgument);
        }
        let tick = self.state.next_tick();
        if let Some(i) = self.state.find(offset) {
            let mut nd: Vec<u8> = Vec::new();
            nd.extend_from_slice(data);
            proof {
                assert(nd@ == data@);
            }
            self.state.entries[i].data = nd;
            self.state.entries[i].mark_dirty();
            self.state.entries[i].touch(tick);
            self.dirty_writes = self.dirty_writes.wrapping_add(1);
            proof {
                assert(self@.entries =~= touched(old(self)@.entries, i as int, tick).update(i as int, CacheEntryView {
                    data: data@, dirty: true, ..touched(old(self)@.entries, i as int, tick)[i as int] }));
                assert(entry_at(self@.entries, offset, i as int));
            }
            return Ok(());
        }
        let mut buf: Vec<u8> = Vec::new();
        buf.extend_from_slice(data);
        proof {
            assert(buf@ == data@);
        }
        if self.state.is_full() {
            self.evict_one()?;
        }
        let mut entry = CacheBlock::new(offset, buf, tick);
        entry.mark_dirty();
        let ghost es = self@.entries;
        self.state.entries.push(entry);
        proof {
            assert(self@.entries =~= es.push(entry.entry()));
            lemma_push(es, entry.entry());
            assert(entry_at(self@.entries, offset, es.len() as int));
        }
        self.dirty_writes = self.dirty_writes.wrapping_add(1);
        Ok(())
    }

    /// Caches the block as dirty, writes it through `write_fn`, and marks it
    /// clean when the write succeeds.
    pub fn write_block_sync<F>(&mut self, offset: DiskOffset, data: &[u8], write_fn: &F) -> (r: ExofsResult<usize>)
        where
            F: Fn(&[u8], DiskOffset) -> ExofsResult<usize>,
        requires
            old(self).wf(),
            forall|b: &[u8], o: DiskOffset| write_fn.requires((b, o)),
        ensures
            final(self).wf(),
            data@.len() != 4096 ==> r == Err::<usize, ExofsError>(ExofsError::InvalidArgument) && final(self)@ == old(self)@,
            r matches Ok(n) ==> call_ensures(write_fn, (data, offset), Ok::<usize, ExofsError>(n))
                && forall|i: int| #[trigger] entry_at(final(self)@.entries, offset, i) ==> !final(self)@.entries[i].dirty
                    && final(self)@.entries[i].data == data@,
            r is Ok ==> exists|i: int| #[trigger] entry_at(final(self)@.entries, offset, i),
    {
        self.write_block_dirty(offset, data)?;
        let n = write_fn(data, offset)?;
        if let Some(i) = self.state.find(offset) {
            let ghost prev = self@.entries;
            proof {
                assert(self@.entries[i as int] == self.state.entries@[i as int].entry());
            }
            self.state.entries[i].mark_clean();
            proof {
                assert(self@.entries =~= prev.update(i as int, CacheEntryView { dirty: false, ..prev[i as int] }));
                lemma_set_dirty(prev, i as int, false);
                assert(entry_at(self@.entries, offset, i as int));
                assert forall|k: int| #[trigger] entry_at(self@.entries, offset, k) implies k == i by {
                    if k != i {
                        if k < i {
                        } else {
                            assert(prev[i as int].offset != prev[k].offset);
                        }
                    }
                }
            }
        }
        Ok(n)
    }

    /// Writes every dirty block through `write_fn`; the blocks written
    /// successfully become clean. Returns how many were written.
    pub fn flush_dirty<F>(&mut self, write_fn: &F) -> (r: ExofsResult<u64>)
        where
            F: Fn(&[u8], DiskOffset) -> ExofsResult<usize>,
        requires
            old(self).wf(),
            forall|b: &[u8], o: DiskOffset| write_fn.requires((b, o)),
        ensures
            final(self).wf(),
            ({
                let o = old(self)@.entries;
                let n = final(self)@.entries;
                let k = cleaned(o, n, o.len() as int);
                &&& n.len() == o.len()
                &&& forall|i: int| 0 <= i < o.len() ==> #[trigger] n[i] == (CacheEntryView { dirty: n[i].dirty, ..o[i] })
                &&& forall|i: int| 0 <= i < o.len() && !o[i].dirty ==> !(#[trigger] n[i]).dirty
                &&& forall|i: int| 0 <= i < o.len() && o[i].dirty && !(#[trigger] n[i]).dirty ==> exists|b: &[u8], w: usize|
                    b@ == o[i].data && call_ensures(write_fn, (b, o[i].offset), Ok::<usize, ExofsError>(w))
                &&& forall|i: int| 0 <= i < o.len() && o[i].dirty && (#[trigger] n[i]).dirty ==> exists|b: &[u8], e: ExofsError|
                    b@ == o[i].data && call_ensures(write_fn, (b, o[i].offset), Err::<usize, ExofsError>(e))
                &&& r == Ok::<u64, ExofsError>(k as u64)
                &&& final(self)@ == (BlockCacheView { entries: n, flushes: wrap_add(old(self)@.flushes, k as u64), ..old(self)@ })
            }),
    {
        let ghost o = self@.entries;
        let mut flushed: u64 = 0;
        let mut i: usize = 0;
        while i < self.state.entries.len()
            invariant
                self.wf(),
                self@.entries.len() == o.len(),
                0 <= i <= o.len(),
                forall|b: &[u8], off: DiskOffset| write_fn.requires((b, off)),
                forall|j: int| 0 <= j < o.len() ==> #[trigger] self@.entries[j] == (CacheEntryView { dirty: self@.entries[j].dirty, ..o[j] }),
                forall|j: int| i <= j < o.len() ==> #[trigger] self@.entries[j] == o[j],
                forall|j: int| 0 <= j < i && !o[j].dirty ==> !(#[trigger] self@.entries[j]).dirty,
                forall|j: int| 0 <= j < i && o[j].dirty && !(#[trigger] self@.entries[j]).dirty ==> exists|b: &[u8], w: usize|
                    b@ == o[j].data && call_ensures(write_fn, (b, o[j].offset), Ok::<usize, ExofsError>(w)),
                forall|j: int| 0 <= j < i && o[j].dirty && (#[trigger] self@.entries[j]).dirty ==> exists|b: &[u8], e: ExofsError|
                    b@ == o[j].data && call_ensures(write_fn, (b, o[j].offset), Err::<usize, ExofsError>(e)),
                flushed == cleaned(o, self@.entries, i as int),
                flushed <= i,
                self@ == (BlockCacheView { entries: self@.entries, flushes: wrap_add(old(self)@.flushes, flushed), ..old(self)@ }),
            decreases o.len() - i,
        {
            proof {
                assert(self@.entries[i as int] == self.state.entries@[i as int].entry());
            }
            if self.state.entries[i].is_dirty() {
                let off = self.state.entries[i].offset;
                let sl = self.state.entries[i].data.as_slice();
                let res = write_fn(sl, off);
                match res {
                    Ok(w) => {
                        proof {
                            assert(sl@ == o[i as int].data && call_ensures(write_fn, (sl, o[i as int].offset), Ok::<usize, ExofsError>(w)));
                        }
                        let ghost prev = self@.entries;
                        self.state.entries[i].mark_clean();
                        proof {
                            assert(self@.entries =~= prev.update(i as int, CacheEntryView { dirty: false, ..prev[i as int] }));
                            lemma_set_dirty(prev, i as int, false);
                            lemma_cleaned_frame(o, prev, self@.entries, i as int);
                        }
                        self.flushes = self.flushes.wrapping_add(1);
                        flushed = flushed + 1;
                    },
                    Err(e) => {
                        proof {
                            assert(sl@ == o[i as int].data && call_ensures(write_fn, (sl, o[i as int].offset), Err::<usize, ExofsError>(e)));
                        }
                    },
                }
            }
            i += 1;
        }
        Ok(flushed)
    }

    /// Drops the block at `offset` from the cache (the last block takes its place).
    pub fn invalidate(&mut self, offset: DiskOffset)
        requires
            old(self).wf(),
        ensures
            final(self).wf(),
            no_entry(old(self)@.entries, offset) ==> final(self)@ == old(self)@,
            forall|i: int| #[trigger] entry_at(old(self)@.entries, offset, i) ==> final(self)@ == (BlockCacheView {
                entries: old(self)@.entries.update(i, old(self)@.entries.last()).drop_last(),
                ..old(self)@
            }),
    {
        if let Some(pos) = self.state.find(offset) {
            let ghost before = self.state.entries@;
            let ghost es = self@.entries;
            let _ = self.state.entries.swap_remove(pos);
            proof {
                assert(self.state.entries@ == before.update(pos as int, before.last()).drop_last());
                assert(self@.entries =~= es.update(pos as int, es.last()).drop_last());
                lemma_swap_remove(es, pos as int);
                assert forall|i: int| #[trigger] entry_at(es, offset, i) implies i == pos by {
                    if i != pos {
                        if i < pos {
                        } else {
                            assert(es[pos as int].offset != es[i].offset);
                        }
                    }
                }
            }
        }
    }

    /// Drops every block.
    pub fn invalidate_all(&mut self)
        requires
            old(self).wf(),
        ensures
            final(self).wf(),
            final(self)@ == (BlockCacheView { entries: Seq::empty(), ..old(self)@ }),
    {
        self.state.entries.clear();
        proof {
            assert(self@.entries =~= Seq::<CacheEntryView>::empty());
        }
    }

    fn insert_clean(&mut self, offset: DiskOffset, data: Vec<u8>) -> (r: ExofsResult<()>)
        requires
            old(self).wf(),
            no_entry(old(self)@.entries, offset),
            data@.len() == 4096,
        ensures
            final(self).wf(),
            ({
                let t = wrap_add(old(self)@.tick, 1);
                &&& old(self)@.capacity == 0 ==> r == Err::<(), ExofsError>(ExofsError::NoMemory)
                    && final(self)@ == (BlockCacheView { tick: t, ..old(self)@ })
                &&& full_of_dirty(old(self)@) ==> r == Err::<(), ExofsError>(ExofsError::BufferFull)
                    && final(self)@ == (BlockCacheView { tick: t, ..old(self)@ })
                &&& old(self)@.capacity > 0 && !full_of_dirty(old(self)@) ==> r == Ok::<(), ExofsError>(())
                    && insert_post(BlockCacheView { tick: t, ..old(self)@ }, final(self)@, offset, data@, false, t)
            }),
    {
        let tick = self.state.next_tick();
        if self.state.is_full() {
            self.evict_one()?;
        }
        let ghost es = self@.entries;
        let blk = CacheBlock::new(offset, data, tick);
        self.state.entries.push(blk);
        proof {
            assert(self@.entries =~= es.push(blk.entry()));
            lemma_push(es, blk.entry());
        }
        Ok(())
    }

    /// Evicts the LRU clean block. Dirty blocks are kept: with none clean,
    /// nothing is evicted and `BufferFull` asks for a flush first.
    fn evict_one(&mut self) -> (r: ExofsResult<()>)
        requires
            old(self).wf(),
        ensures
            final(self).wf(),
            old(self)@.entries.len() == 0 ==> r == Err::<(), ExofsError>(ExofsError::NoMemory) && final(self)@ == old(self)@,
            old(self)@.entries.len() > 0 && no_clean(old(self)@.entries)
                ==> r == Err::<(), ExofsError>(ExofsError::BufferFull) && final(self)@ == old(self)@,
            !no_clean(old(self)@.entries) ==> r == Ok::<(), ExofsError>(()) && exists|v: usize| #[trigger] victim_ok(old(self)@.entries, Some(v))
                && final(self)@ == (BlockCacheView {
                    entries: old(self)@.entries.update(v as int, old(self)@.entries.last()).drop_last(),
                    evictions: wrap_add(old(self)@.evictions, 1),
                    ..old(self)@
                }),
    {
        if self.state.entries.len() == 0 {
            return Err(ExofsError::NoMemory);
        }
        let victim_idx = match self.state.lru_victim() {
            Some(i) => i,
            None => return Err(ExofsError::BufferFull),
        };
        let ghost before = self.state.entries@;
        let ghost es = self@.entries;
        let _ = self.state.entries.swap_remove(victim_idx);
        proof {
            assert(self.state.entries@ == before.update(victim_idx as int, before.last()).drop_last());
            assert(self@.entries =~= es.update(victim_idx as int, es.last()).drop_last());
            lemma_swap_remove(es, victim_idx as int);
        }
        self.evictions = self.evictions.wrapping_add(1);
        Ok(())
    }

    /// Cache hits.
    pub fn hit_count(&self) -> (r: u64)
        ensures
            r == self@.hits,
    {
        self.hits
    }

    /// Cache misses.
    pub fn miss_count(&self) -> (r: u64)
        ensures
            r == self@.misses,
    {
        self.misses
    }

    /// Evictions.
    pub fn eviction_count(&self) -> (r: u64)
        ensures
            r == self@.evictions,
    {
        self.evictions
    }

    /// Blocks flushed.
    pub fn flush_count(&self) -> (r: u64)
        ensures
            r == self@.flushes,
    {
        self.flushes
    }

    /// Hits per hundred lookups (0 when there was none).
    pub fn hit_rate_pct(&self) -> (r: u64)
        ensures
            ({
                let t = if self@.hits + self@.misses > u64::MAX { u64::MAX as int } else { self@.hits + self@.misses };
                &&& t == 0 ==> r == 0
                &&& t > 0 ==> r == self@.hits * 100 / t
            }),
    {
        let h = self.hits;
        let m = self.misses;
        let t = h.saturating_add(m);
        if t == 0 {
            0
        } else {
            proof {
                assert(h * 100 / (t as int) <= 100) by (nonlinear_arith)
                    requires h <= t, t > 0;
            }
            (h as u128 * 100 / t as u128) as u64
        }
    }

    /// Number of dirty blocks.
    pub fn dirty_count(&self) -> (r: usize)
        ensures
            r == dirty_in(self@.entries),
    {
        self.state.dirty_count()
    }

    /// Number of cached blocks.
    pub fn cached_count(&self) -> (r: usize)
        requires
            self.wf(),
        ensures
            r == self@.entries.len(),
    {
        self.state.entries.len()
    }

    /// Capacity in blocks.
    pub fn capacity(&self) -> (r: usize)
        ensures
            r == self@.capacity,
    {
        self.state.capacity
    }

    /// True iff nothing is cached.
    pub fn is_empty(&self) -> (r: bool)
        requires
            self.wf(),
        ensures
            r == (self@.entries.len() == 0),
    {
        self.state.entries.len() == 0
    }
}

/// Entries `[k, ..)` do not affect how many of the first `k` were cleaned.
proof fn lemma_cleaned_frame(o: Seq<CacheEntryView>, n: Seq<CacheEntryView>, m: Seq<CacheEntryView>, k: int)
    requires
        forall|j: int| 0 <= j < k ==> #[trigger] m[j] == n[j],
    ensures
        cleaned(o, m, k) == cleaned(o, n, k),
    decreases k,
{
    if k > 0 {
        lemma_cleaned_frame(o, n, m, k - 1);
    }
}

/// Changing only the dirty flag of one entry keeps the invariant.
proof fn lemma_set_dirty(es: Seq<CacheEntryView>, i: int, d: bool)
    requires
        0 <= i < es.len(),
        all_blocks(es),
        distinct_offsets(es),
    ensures
        all_blocks(es.update(i, CacheEntryView { dirty: d, ..es[i] })),
        distinct_offsets(es.update(i, CacheEntryView { dirty: d, ..es[i] })),
{
    let n = es.update(i, CacheEntryView { dirty: d, ..es[i] });
    assert forall|a: int, b: int| 0 <= a < b < n.len() implies (#[trigger] n[a]).offset != (#[trigger] n[b]).offset by {
        assert(es[a].offset != es[b].offset);
    }
}

} // verus!
