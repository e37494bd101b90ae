//! Reading extents of the volume through a caller-supplied reader, directly
//! or through the block cache.
use vstd::prelude::*;
use crate::types::{DiskOffset, ExofsError, ExofsResult};
use crate::storage::block_cache::{BlockCache, BlockCacheView, CacheEntryView, entry_at, no_entry, touched};
use crate::storage::heap_allocator::wrap_add;
use crate::storage::compression_choice::wadd;
use crate::storage::extent_writer::{Extent, sat64};
use crate::bytes::{push_bytes, zeroed};

verus! {

/// What one read returned.
pub struct ExtentReadResult {
    pub data: Vec<u8>,
    pub extent: Extent,
    pub bytes_read: u64,
    pub cached: bool,
    pub segments: u64,
}

/// Counters of a reader.
pub struct ExtentReaderView {
    pub bytes_read: u64,
    pub read_ops: u64,
    pub errors: u64,
    pub cache_ops: u64,
}

/// Reads extents and counts what it read.
pub struct ExtentReader {
    bytes_read: u64,
    read_ops: u64,
    errors: u64,
    cache_ops: u64,
}

impl View for ExtentReader {
    type V = ExtentReaderView;

    closed spec fn view(&self) -> ExtentReaderView {
        ExtentReaderView {
            bytes_read: self.bytes_read,
            read_ops: self.read_ops,
            errors: self.errors,
            cache_ops: self.cache_ops,
        }
    }
}

/// `res` is what one call of the reader that reported `res.bytes_read` bytes
/// gives for a read of `size` bytes at `offset`: the buffer cut to what was
/// reported.
pub open spec fn single_read(offset: DiskOffset, size: u64, res: ExtentReadResult, cached: bool) -> bool {
    &&& res.data@.len() == (if res.bytes_read < size { res.bytes_read } else { size })
    &&& res.extent == (Extent { offset, size: res.bytes_read })
    &&& res.cached == cached
    &&& res.segments == 1
}

/// Sum of the sizes of the first `k` extents.
pub open spec fn total_size(es: Seq<Extent>, k: int) -> int
    decreases k,
{
    if k <= 0 { 0 } else { total_size(es, k - 1) + es[k - 1].size }
}

/// Block `k` from `offset` has an entry in `es`.
pub open spec fn block_cached(es: Seq<CacheEntryView>, offset: u64, k: int) -> bool {
    exists|i: int| #![trigger es[i]] entry_at(es, DiskOffset((offset + k * 4096) as u64), i)
}

/// Each of the `n` blocks from `offset` has an entry in `es`.
pub open spec fn all_cached(es: Seq<CacheEntryView>, offset: u64, n: int) -> bool {
    forall|k: int| 0 <= k < n ==> #[trigger] block_cached(es, offset, k)
}

/// The index of the entry of block `k` from `offset` in `es`, when cached.
pub open spec fn cached_index(es: Seq<CacheEntryView>, offset: u64, k: int) -> int {
    choose|i: int| #![trigger es[i]] entry_at(es, DiskOffset((offset + k * 4096) as u64), i)
}

/// The data cached in `es` for the first `k` blocks from `offset`, joined.
pub open spec fn cached_data(es: Seq<CacheEntryView>, offset: u64, k: int) -> Seq<u8>
    decreases k,
{
    if k <= 0 {
        Seq::empty()
    } else {
        cached_data(es, offset, k - 1) + es[cached_index(es, offset, k - 1)].data
    }
}

/// `b` holds the same blocks with the same data as `a`.
pub open spec fn same_blocks(a: Seq<CacheEntryView>, b: Seq<CacheEntryView>) -> bool {
    &&& a.len() == b.len()
    &&& forall|j: int| 0 <= j < a.len() ==> (#[trigger] b[j]).offset == a[j].offset && b[j].data == a[j].data
}

/// `read_fn` was handed a buffer of `size` bytes for `offset` and answered
/// a count.
pub open spec fn reader_answered<F>(read_fn: F, offset: DiskOffset, size: nat) -> bool
    where
        F: Fn(DiskOffset, &mut [u8]) -> ExofsResult<usize>,
{
    exists|b: &mut [u8], n: usize| #[trigger] call_ensures(read_fn, (offset, b), Ok::<usize, ExofsError>(n)) && b@.len() == size
}

/// `read_fn` was handed a buffer of `size` bytes for `offset` and answered
/// `n`.
pub open spec fn reader_counted<F>(read_fn: F, offset: DiskOffset, size: nat, n: usize) -> bool
    where
        F: Fn(DiskOffset, &mut [u8]) -> ExofsResult<usize>,
{
    exists|b: &mut [u8]| #[trigger] call_ensures(read_fn, (offset, b), Ok::<usize, ExofsError>(n)) && b@.len() == size
}

/// Bytes still wanted of `size` once the reader answered `ns[..k]`.
pub open spec fn rem_after(size: int, ns: Seq<usize>, k: int) -> int
    decreases k,
{
    if k <= 0 {
        size
    } else {
        let r = rem_after(size, ns, k - 1);
        if ns[k - 1] < r { r - ns[k - 1] } else { 0 }
    }
}

/// The calls a block-by-block read of `size` bytes at `offset` made: the
/// `k`-th at `offs[k]` with a buffer of the bytes still wanted, at most a
/// block, answered `ns[k]`; each next call starts where the reader said
/// the last one ended, and the reads went on while bytes were wanted and
/// the reader gave some.
pub open spec fn block_reads<F>(read_fn: F, offset: u64, size: int, offs: Seq<u64>, ns: Seq<usize>) -> bool
    where
        F: Fn(DiskOffset, &mut [u8]) -> ExofsResult<usize>,
{
    &&& offs.len() == ns.len()
    &&& offs.len() > 0 ==> offs[0] == offset
    &&& forall|k: int| 0 <= k < offs.len() - 1 ==> #[trigger] offs[k + 1] == offs[k] + ns[k] && ns[k] != 0
        && rem_after(size, ns, k + 1) > 0
    &&& forall|k: int| #![trigger offs[k]] 0 <= k < offs.len() ==> reader_counted(read_fn, DiskOffset(offs[k]),
        (if rem_after(size, ns, k) < 4096 { rem_after(size, ns, k) } else { 4096 }) as nat, ns[k])
}

/// Answers after the first `k` do not change what was wanted before them.
proof fn lemma_rem_after_prefix(size: int, ns: Seq<usize>, x: usize, k: int)
    requires
        0 <= k <= ns.len(),
    ensures
        rem_after(size, ns.push(x), k) == rem_after(size, ns, k),
    decreases k,
{
    if k > 0 {
        lemma_rem_after_prefix(size, ns, x, k - 1);
        assert(ns.push(x)[k - 1] == ns[k - 1]);
    }
}

/// `e` is the error `read_fn` reported for `offset`.
pub open spec fn reader_failed<F>(read_fn: F, offset: DiskOffset, e: ExofsError) -> bool
    where
        F: Fn(DiskOffset, &mut [u8]) -> ExofsResult<usize>,
{
    exists|b: &mut [u8]| #[trigger] call_ensures(read_fn, (offset, b), Err::<usize, ExofsError>(e))
}

/// Reads `size` bytes at `offset` into a new buffer; returns the count the
/// reader reported and the buffer cut to it.
fn read_into<F>(offset: DiskOffset, size: usize, read_fn: &F) -> (r: ExofsResult<(Vec<u8>, usize)>)
    where
        F: Fn(DiskOffset, &mut [u8]) -> ExofsResult<usize>,
    requires
        forall|o: DiskOffset, b: &mut [u8]| read_fn.requires((o, b)),
    ensures
        r matches Ok((v, n)) ==> v@.len() == (if n < size { n } else { size }) && (exists|b: &mut [u8]| #[trigger] call_ensures(*read_fn, (offset, b), Ok::<usize, ExofsError>(n))
                && b@.len() == size && final(b)@.len() == size
                && v@ == final(b)@.subrange(0, if n < size { n as int } else { size as int })),
        r is Ok ==> reader_answered(*read_fn, offset, size as nat),
        r matches Ok((v, n)) ==> reader_counted(*read_fn, offset, size as nat, n),
        r matches Err(e) ==> reader_failed(*read_fn, offset, e) || (e == ExofsError::InvalidSize
            && exists|b: &mut [u8], n: usize| #[trigger] call_ensures(*read_fn, (offset, b), Ok::<usize, ExofsError>(n)) && b@.len() == size
            && final(b)@.len() != size),
        (forall|o: DiskOffset, b: &mut [u8], e: ExofsError| !(#[trigger] call_ensures(*read_fn, (o, b), Err::<usize, ExofsError>(e))))
            && (forall|o: DiskOffset, b: &mut [u8], n: usize| #[trigger] call_ensures(*read_fn, (o, b), Ok::<usize, ExofsError>(n))
            ==> final(b)@.len() == b@.len() && n <= b@.len()) ==> r is Ok,
{
    let mut buf = zeroed(size);
    let n = read_fn(offset, buf.as_mut_slice())?;
    if buf.len() != size {
        // A reader that changed the length of the slice it was given is refused.
        return Err(ExofsError::InvalidSize);
    }
    let ghost full = buf@;
    proof {
        assert(exists|b: &mut [u8]| #[trigger] call_ensures(*read_fn, (offset, b), Ok::<usize, ExofsError>(n)) && b@.len() == size
            && final(b)@ == full);
    }
    buf.truncate(n);
    proof {
        assert(buf@ =~= full.subrange(0, if n < size { n as int } else { size as int }));
        assert(exists|b: &mut [u8]| #[trigger] call_ensures(*read_fn, (offset, b), Ok::<usize, ExofsError>(n)) && b@.len() == size
            && final(b)@.len() == size && buf@ == final(b)@.subrange(0, if n < size { n as int } else { size as int }));
    }
    Ok((buf, n))
}

impl ExtentReader {
    /// A reader with all counters zero.
    pub fn new() -> (r: ExtentReader)
        ensures
            r@ == (ExtentReaderView { bytes_read: 0, read_ops: 0, errors: 0, cache_ops: 0 }),
    {
        ExtentReader { bytes_read: 0, read_ops: 0, errors: 0, cache_ops: 0 }
    }

    /// Reads `size` bytes at `offset` in one call of the reader.
    pub fn read<F>(&mut self, offset: DiskOffset, size: u64, read_fn: &F) -> (r: ExofsResult<ExtentReadResult>)
        where
            F: Fn(DiskOffset, &mut [u8]) -> ExofsResult<usize>,
        requires
            size <= usize::MAX,
            forall|o: DiskOffset, b: &mut [u8]| read_fn.requires((o, b)),
        ensures
            size == 0 ==> r == Err::<ExtentReadResult, ExofsError>(ExofsError::InvalidArgument),
            size > 0 ==> (r matches Err(e) ==> reader_failed(*read_fn, offset, e) || (e == ExofsError::InvalidSize
                && exists|b: &mut [u8], n: usize| #[trigger] call_ensures(*read_fn, (offset, b), Ok::<usize, ExofsError>(n)) && b@.len() == size
                && final(b)@.len() != size)),
            r matches Ok(res) ==> {
                &&& size > 0
                &&& res.bytes_read <= usize::MAX
                &&& single_read(offset, size, res, false)
                &&& reader_answered(*read_fn, offset, size as nat)
                &&& (exists|b: &mut [u8]| #[trigger] call_ensures(*read_fn, (offset, b), Ok::<usize, ExofsError>(res.bytes_read as usize))
                && b@.len() == size && final(b)@.len() == size
                && res.data@ == final(b)@.subrange(0, if res.bytes_read < size { res.bytes_read as int } else { size as int }))
                &&& final(self)@ == (ExtentReaderView {
                    bytes_read: wadd(old(self)@.bytes_read, res.bytes_read),
                    read_ops: wadd(old(self)@.read_ops, 1),
                    ..old(self)@
                })
            },
            r is Err ==> final(self)@ == old(self)@,
            size > 0 && (forall|o: DiskOffset, b: &mut [u8], e: ExofsError| !(#[trigger] call_ensures(*read_fn, (o, b), Err::<usize, ExofsError>(e))))
                && (forall|o: DiskOffset, b: &mut [u8], n: usize| #[trigger] call_ensures(*read_fn, (o, b), Ok::<usize, ExofsError>(n))
                ==> final(b)@.len() == b@.len() && n <= b@.len()) ==> r is Ok,
    {
        if size == 0 {
            return Err(ExofsError::InvalidArgument);
        }
        let (buf, n) = read_into(offset, size as usize, read_fn)?;
        proof {
            let m: u64 = n as u64;
            assert(m as usize == n);
            assert(exists|b: &mut [u8]| #[trigger] call_ensures(*read_fn, (offset, b), Ok::<usize, ExofsError>(m as usize))
                && final(b)@.len() == size && buf@ == final(b)@.subrange(0, if m < size { m as int } else { size as int }));
        }
        self.bytes_read = self.bytes_read.wrapping_add(n as u64);
        self.read_ops = self.read_ops.wrapping_add(1);
        Ok(ExtentReadResult { data: buf, extent: Extent::new(offset, n as u64), bytes_read: n as u64, cached: false, segments: 1 })
    }

    /// Reads `size` bytes at `offset` one block at a time, stopping early at a
    /// read that returns nothing.
    pub fn read_blocks<F>(&mut self, offset: DiskOffset, size: u64, read_fn: &F) -> (r: ExofsResult<ExtentReadResult>)
        where
            F: Fn(DiskOffset, &mut [u8]) -> ExofsResult<usize>,
        requires
            size <= usize::MAX,
            forall|o: DiskOffset, b: &mut [u8]| read_fn.requires((o, b)),
        ensures
            size == 0 ==> r == Err::<ExtentReadResult, ExofsError>(ExofsError::InvalidArgument),
            r matches Ok(res) ==> {
                &&& size > 0
                &&& res.bytes_read == res.data@.len() <= size
                &&& res.extent == (Extent { offset, size: res.bytes_read })
                &&& !res.cached
                &&& 1 <= res.segments <= size
                &&& final(self)@ == (ExtentReaderView {
                    bytes_read: wadd(old(self)@.bytes_read, res.bytes_read),
                    read_ops: wadd(old(self)@.read_ops, res.segments),
                    ..old(self)@
                })
                &&& exists|offs: Seq<u64>, ns: Seq<usize>| #[trigger] block_reads(*read_fn, offset.0, size as int, offs, ns)
                    && offs.len() == res.segments
                    && (rem_after(size as int, ns, ns.len() as int) == 0 || ns.last() == 0)
            },
            r is Err ==> final(self)@ == old(self)@,
            size > 0 && offset.0 + size <= u64::MAX && (forall|o: DiskOffset, b: &mut [u8], e: ExofsError| !(#[trigger] call_ensures(*read_fn, (o, b), Err::<usize, ExofsError>(e))))
                && (forall|o: DiskOffset, b: &mut [u8], n: usize| #[trigger] call_ensures(*read_fn, (o, b), Ok::<usize, ExofsError>(n))
                ==> final(b)@.len() == b@.len() && n <= b@.len()) ==> r is Ok,
    {
        if size == 0 {
            return Err(ExofsError::InvalidArgument);
        }
        let total: usize = size as usize;
        let mut out: Vec<u8> = Vec::new();
        let mut remaining: usize = total;
        let mut disk: u64 = offset.0;
        let mut seg_count: u64 = 0;
        let mut eof = false;
        let ghost mut offs: Seq<u64> = Seq::empty();
        let ghost mut ns: Seq<usize> = Seq::empty();
        let ghost mut tame: bool = true;
        while remaining > 0 && !eof
            invariant
                forall|o: DiskOffset, b: &mut [u8]| read_fn.requires((o, b)),
                block_reads(*read_fn, offset.0, size as int, offs, ns),
                offs.len() == seg_count,
                remaining == rem_after(size as int, ns, ns.len() as int),
                disk == (if ns.len() == 0 { offset.0 as int } else { offs.last() + ns.last() }),
                eof == (ns.len() > 0 && ns.last() == 0),
                tame ==> disk + remaining == offset.0 + size,
                !tame ==> exists|o: DiskOffset, sz: nat, n: usize| #[trigger] reader_counted(*read_fn, o, sz, n) && n > sz,
                total == size,
                remaining <= total,
                out@.len() <= total - remaining,
                !eof ==> seg_count <= total - remaining,
                eof ==> seg_count <= total - remaining + 1 && remaining > 0,
                eof || remaining < total ==> seg_count >= 1,
            decreases remaining, (if eof { 0int } else { 1int }),
        {
            let to_read: usize = if remaining < 4096 { remaining } else { 4096 };
            let (blk, n) = read_into(DiskOffset(disk), to_read, read_fn)?;
            push_bytes(&mut out, blk.as_slice());
            let ghost o0 = offs;
            let ghost n0 = ns;
            proof {
                offs = offs.push(disk);
                ns = ns.push(n);
                lemma_rem_after_prefix(size as int, n0, n, n0.len() as int);
                assert forall|k: int| 0 <= k <= n0.len() implies rem_after(size as int, ns, k) == rem_after(size as int, n0, k) by {
                    lemma_rem_after_prefix(size as int, n0, n, k);
                }
                assert forall|k: int| 0 <= k < offs.len() - 1 implies #[trigger] offs[k + 1] == offs[k] + ns[k] && ns[k] != 0
                    && rem_after(size as int, ns, k + 1) > 0 by {
                    if k < o0.len() - 1 {
                        assert(o0[k + 1] == o0[k] + n0[k]);
                    }
                }
                assert forall|k: int| #![trigger offs[k]] 0 <= k < offs.len() implies reader_counted(*read_fn, DiskOffset(offs[k]),
                    (if rem_after(size as int, ns, k) < 4096 { rem_after(size as int, ns, k) } else { 4096 }) as nat, ns[k]) by {
                    if k < o0.len() {
                        assert(offs[k] == o0[k] && ns[k] == n0[k]);
                    }
                }
            }
            proof {
                if n > to_read {
                    assert(reader_counted(*read_fn, DiskOffset(disk), to_read as nat, n));
                    tame = false;
                }
            }
            disk = match disk.checked_add(n as u64) {
                Some(d) => d,
                None => return Err(ExofsError::Overflow),
            };
            remaining = if n < remaining { remaining - n } else { 0 };
            seg_count = seg_count + 1;
            if n == 0 {
                // The reader reached the end early.
                eof = true;
            }
        }
        let bytes_read = out.len() as u64;
        self.bytes_read = self.bytes_read.wrapping_add(bytes_read);
        self.read_ops = self.read_ops.wrapping_add(seg_count);
        Ok(ExtentReadResult { data: out, extent: Extent::new(offset, bytes_read), bytes_read, cached: false, segments: seg_count })
    }

    /// Reads the block at `offset` through `cache`.
    pub fn read_cached<F>(&mut self, offset: DiskOffset, cache: &mut BlockCache, read_fn: &F) -> (r: ExofsResult<ExtentReadResult>)
        where
            F: Fn(DiskOffset, &mut [u8]) -> ExofsResult<usize>,
        requires
            old(cache).wf(),
            forall|o: DiskOffset, b: &mut [u8]| read_fn.requires((o, b)),
        ensures
            final(cache).wf(),
            r matches Ok(res) ==> {
                &&& res.cached
                &&& res.segments == 1
                &&& res.extent == (Extent { offset, size: res.bytes_read })
                &&& res.data@.len() == (if res.bytes_read < 4096 { res.bytes_read } else { 4096 })
                &&& final(self)@ == (ExtentReaderView { cache_ops: wadd(old(self)@.cache_ops, 1), ..old(self)@ })
            },
            r is Err ==> final(self)@ == old(self)@,
            forall|i: int| #[trigger] entry_at(old(cache)@.entries, offset, i) ==> {
                let o = old(cache)@;
                let t = wrap_add(o.tick, 1);
                &&& r matches Ok(res) && res.bytes_read == 4096 && res.data@ == o.entries[i].data
                &&& final(cache)@ == (BlockCacheView { entries: touched(o.entries, i, t), tick: t, hits: wrap_add(o.hits, 1), ..o })
            },
            no_entry(old(cache)@.entries, offset) ==> (r matches Ok(res) ==> exists|b: &mut [u8]| #[trigger] call_ensures(*read_fn,
                (offset, b), Ok::<usize, ExofsError>(res.bytes_read as usize)) && final(b)@.len() == 4096
                && res.data@ == final(b)@.subrange(0, if res.bytes_read < 4096 { res.bytes_read as int } else { 4096 })),
    {
        proof {
            cache.lemma_wf();
        }
        let mut buf = zeroed(4096);
        let n = cache.read_block(offset, buf.as_mut_slice(), read_fn)?;
        proof {
            assert forall|i: int| #[trigger] entry_at(old(cache)@.entries, offset, i) implies buf@ == old(cache)@.entries[i].data by {
                assert(old(cache)@.entries[i].data.len() == 4096);
                assert(buf@ =~= old(cache)@.entries[i].data);
            }
        }
        let ghost full = buf@;
        buf.truncate(n);
        proof {
            let m: u64 = n as u64;
            assert(m as usize == n);
            assert(buf@ =~= full.subrange(0, if m < 4096 { m as int } else { 4096 }));
            if no_entry(old(cache)@.entries, offset) {
                assert(full.subrange(4096, 4096) =~= Seq::<u8>::empty());
                assert(exists|b: &mut [u8]| #[trigger] call_ensures(*read_fn, (offset, b), Ok::<usize, ExofsError>(m as usize))
                    && final(b)@ =~= full);
            }
        }
        self.cache_ops = self.cache_ops.wrapping_add(1);
        Ok(ExtentReadResult { data: buf, extent: Extent::new(offset, n as u64), bytes_read: n as u64, cached: true, segments: 1 })
    }

    /// Reads `n_blocks` consecutive blocks from `offset` through `cache`.
    /// A reader that reports more than a block is refused.
    pub fn read_cached_blocks<F>(&mut self, offset: DiskOffset, n_blocks: u64, cache: &mut BlockCache, read_fn: &F) -> (r: ExofsResult<ExtentReadResult>)
        where
            F: Fn(DiskOffset, &mut [u8]) -> ExofsResult<usize>,
        requires
            old(cache).wf(),
            forall|o: DiskOffset, b: &mut [u8]| read_fn.requires((o, b)),
        ensures
            final(cache).wf(),
            r matches Ok(res) ==> {
                &&& res.cached
                &&& res.segments == n_blocks
                &&& res.bytes_read == res.data@.len() <= n_blocks * 4096
                &&& res.extent == (Extent { offset, size: res.bytes_read })
                &&& offset.0 + n_blocks * 4096 <= u64::MAX
                &&& final(self)@ == (ExtentReaderView { cache_ops: wadd(old(self)@.cache_ops, n_blocks), ..old(self)@ })
            },
            r is Err ==> final(self)@ == old(self)@,
            n_blocks == 0 ==> (r matches Ok(res) && res.data@.len() == 0 && final(self)@ == old(self)@
                && final(cache)@ == old(cache)@),
            offset.0 + n_blocks * 4096 <= u64::MAX && all_cached(old(cache)@.entries, offset.0, n_blocks as int)
                ==> (r matches Ok(res) && res.data@ == cached_data(old(cache)@.entries, offset.0, n_blocks as int)),
    {
        let mut out: Vec<u8> = Vec::new();
        let mut disk: u64 = offset.0;
        let mut k: u64 = 0;
        let ghost es0 = cache@.entries;
        let ghost hit = offset.0 + n_blocks * 4096 <= u64::MAX && all_cached(es0, offset.0, n_blocks as int);
        while k < n_blocks
            invariant
                cache.wf(),
                forall|o: DiskOffset, b: &mut [u8]| read_fn.requires((o, b)),
                0 <= k <= n_blocks,
                disk == offset.0 + k * 4096,
                out@.len() <= k * 4096,
                k == 0 ==> cache@ == old(cache)@,
                es0 == old(cache)@.entries,
                hit == (offset.0 + n_blocks * 4096 <= u64::MAX && all_cached(es0, offset.0, n_blocks as int)),
                hit ==> same_blocks(es0, cache@.entries) && out@ == cached_data(es0, offset.0, k as int),
            decreases n_blocks - k,
        {
            let mut buf = zeroed(4096);
            let ghost es1 = cache@.entries;
            proof {
                if hit {
                    assert(disk == offset.0 + k * 4096);
                    assert(block_cached(es0, offset.0, k as int));
                    let i0 = cached_index(es0, offset.0, k as int);
                    assert(entry_at(es1, DiskOffset(disk), i0));
                }
            }
            let n = cache.read_block(DiskOffset(disk), buf.as_mut_slice(), read_fn)?;
            proof {
                if hit {
                    let i0 = cached_index(es0, offset.0, k as int);
                    assert(entry_at(es1, DiskOffset(disk), i0));
                    assert(n == 4096);
                    assert(buf@ =~= es0[i0].data);
                    assert(same_blocks(es0, cache@.entries));
                }
            }
            if n > buf.len() {
                return Err(ExofsError::InvalidSize);
            }
            let part = vstd::slice::slice_subrange(buf.as_slice(), 0, n);
            push_bytes(&mut out, part);
            disk = match disk.checked_add(4096) {
                Some(d) => d,
                None => return Err(ExofsError::Overflow),
            };
            proof {
                if hit {
                    let i0 = cached_index(es0, offset.0, k as int);
                    assert(part@ =~= es0[i0].data);
                    assert(out@ =~= cached_data(es0, offset.0, k + 1));
                }
            }
            k = k + 1;
        }
        let bytes_read = out.len() as u64;
        self.cache_ops = self.cache_ops.wrapping_add(n_blocks);
        Ok(ExtentReadResult { data: out, extent: Extent::new(offset, bytes_read), bytes_read, cached: true, segments: n_blocks })
    }

    /// Bytes read.
    pub fn total_bytes_read(&self) -> (r: u64)
        ensures
            r == self@.bytes_read,
    {
        self.bytes_read
    }

    /// Reader calls made.
    pub fn total_read_ops(&self) -> (r: u64)
        ensures
            r == self@.read_ops,
    {
        self.read_ops
    }

    /// Reads made through the cache.
    pub fn cache_ops(&self) -> (r: u64)
        ensures
            r == self@.cache_ops,
    {
        self.cache_ops
    }

    /// Errors counted.
    pub fn error_count(&self) -> (r: u64)
        ensures
            r == self@.errors,
    {
        self.errors
    }

    /// Reads every extent in turn and joins what was read.
    pub fn gather_read<F>(&mut self, extents: &[Extent], read_fn: &F) -> (r: ExofsResult<Vec<u8>>)
        where
            F: Fn(DiskOffset, &mut [u8]) -> ExofsResult<usize>,
        requires
            forall|k: int| 0 <= k < extents@.len() ==> (#[trigger] extents@[k]).size <= usize::MAX,
            forall|o: DiskOffset, b: &mut [u8]| read_fn.requires((o, b)),
        ensures
            r matches Ok(v) ==> {
                &&& v@.len() <= total_size(extents@, extents@.len() as int)
                &&& forall|k: int| 0 <= k < extents@.len() ==> (#[trigger] extents@[k]).size > 0
                &&& final(self)@.read_ops == wadd(old(self)@.read_ops, extents@.len() as u64)
            },
            final(self)@.errors == old(self)@.errors,
            final(self)@.cache_ops == old(self)@.cache_ops,
            extents@.len() == 0 ==> (r matches Ok(v) && v@.len() == 0 && final(self)@ == old(self)@),
            extents@.len() > 0 && extents@[0].size == 0 ==> r == Err::<Vec<u8>, ExofsError>(ExofsError::InvalidArgument)
                && final(self)@ == old(self)@,
            r is Ok ==> forall|k: int| #![trigger extents@[k]] 0 <= k < extents@.len()
                ==> reader_answered(*read_fn, extents@[k].offset, extents@[k].size as nat),
            r matches Err(e) ==> e == ExofsError::InvalidArgument || e == ExofsError::InvalidSize
                || exists|k: int| 0 <= k < extents@.len() && reader_failed(*read_fn, (#[trigger] extents@[k]).offset, e),
            (forall|k: int| 0 <= k < extents@.len() ==> (#[trigger] extents@[k]).size > 0) && (forall|o: DiskOffset, b: &mut [u8], e: ExofsError| !(#[trigger] call_ensures(*read_fn, (o, b), Err::<usize, ExofsError>(e))))
                && (forall|o: DiskOffset, b: &mut [u8], n: usize| #[trigger] call_ensures(*read_fn, (o, b), Ok::<usize, ExofsError>(n))
                ==> final(b)@.len() == b@.len() && n <= b@.len()) ==> r is Ok,
    {
        let mut out: Vec<u8> = Vec::new();
        let mut i: usize = 0;
        while i < extents.len()
            invariant
                forall|k: int| 0 <= k < extents@.len() ==> (#[trigger] extents@[k]).size <= usize::MAX,
                forall|o: DiskOffset, b: &mut [u8]| read_fn.requires((o, b)),
                0 <= i <= extents@.len(),
                out@.len() <= total_size(extents@, i as int),
                forall|k: int| 0 <= k < i ==> (#[trigger] extents@[k]).size > 0,
                self@.read_ops == wadd(old(self)@.read_ops, i as u64),
                self@.errors == old(self)@.errors,
                self@.cache_ops == old(self)@.cache_ops,
                i == 0 ==> self@ == old(self)@,
                forall|k: int| #![trigger extents@[k]] 0 <= k < i ==> reader_answered(*read_fn, extents@[k].offset, extents@[k].size as nat),
            decreases extents.len() - i,
        {
            let ext = extents[i];
            proof {
                assert(extents@[i as int] == ext);
            }
            let res = self.read(ext.offset, ext.size, read_fn)?;
            push_bytes(&mut out, res.data.as_slice());
            i += 1;
        }
        Ok(out)
    }

    /// Reads `len` bytes at `rel_off` inside `extent`.
    pub fn read_partial<F>(&mut self, extent: &Extent, rel_off: u64, len: u64, read_fn: &F) -> (r: ExofsResult<ExtentReadResult>)
        where
            F: Fn(DiskOffset, &mut [u8]) -> ExofsResult<usize>,
        requires
            len <= usize::MAX,
            forall|o: DiskOffset, b: &mut [u8]| read_fn.requires((o, b)),
        ensures
            rel_off + len > u64::MAX ==> r == Err::<ExtentReadResult, ExofsError>(ExofsError::Overflow),
            rel_off + len <= u64::MAX && rel_off + len > extent.size
                ==> r == Err::<ExtentReadResult, ExofsError>(ExofsError::InvalidArgument),
            rel_off + len <= extent.size && extent.offset.0 + rel_off > u64::MAX
                ==> r == Err::<ExtentReadResult, ExofsError>(ExofsError::Overflow),
            rel_off + len <= extent.size && extent.offset.0 + rel_off <= u64::MAX && len == 0
                ==> r == Err::<ExtentReadResult, ExofsError>(ExofsError::InvalidArgument),
            r matches Ok(res) ==> {
                &&& len > 0 && rel_off + len <= extent.size && extent.offset.0 + rel_off <= u64::MAX
                &&& single_read(DiskOffset((extent.offset.0 + rel_off) as u64), len, res, false)
                &&& (exists|b: &mut [u8]| #[trigger] call_ensures(*read_fn, (DiskOffset((extent.offset.0 + rel_off) as u64), b), Ok::<usize, ExofsError>(res.bytes_read as usize)) && final(b)@.len() == len
                && res.data@ == final(b)@.subrange(0, if res.bytes_read < len { res.bytes_read as int } else { len as int }))
                &&& final(self)@ == (ExtentReaderView {
                    bytes_read: wadd(old(self)@.bytes_read, res.bytes_read),
                    read_ops: wadd(old(self)@.read_ops, 1),
                    ..old(self)@
                })
            },
            r is Err ==> final(self)@ == old(self)@,
    {
        let end = match rel_off.checked_add(len) {
            Some(e) => e,
            None => return Err(ExofsError::Overflow),
        };
        if end > extent.size {
            return Err(ExofsError::InvalidArgument);
        }
        let abs = match extent.offset.0.checked_add(rel_off) {
            Some(a) => a,
            None => return Err(ExofsError::Overflow),
        };
        self.read(DiskOffset(abs), len, read_fn)
    }

    /// The counters of the reader.
    pub fn stats_snapshot(&self) -> (r: ExtentReaderStats)
        ensures
            r == (ExtentReaderStats {
                bytes_read: self@.bytes_read,
                read_ops: self@.read_ops,
                cache_ops: self@.cache_ops,
                errors: self@.errors,
            }),
    {
        ExtentReaderStats { bytes_read: self.bytes_read, read_ops: self.read_ops, cache_ops: self.cache_ops, errors: self.errors }
    }
}

impl Default for ExtentReader {
    fn default() -> (r: ExtentReader)
        ensures
            r@ == (ExtentReaderView { bytes_read: 0, read_ops: 0, errors: 0, cache_ops: 0 }),
    {
        ExtentReader::new()
    }
}

/// Counters of a reader.
#[derive(Clone, Copy, Debug)]
pub struct ExtentReaderStats {
    pub bytes_read: u64,
    pub read_ops: u64,
    pub cache_ops: u64,
    pub errors: u64,
}

/// What a scattered read gave for one extent.
pub struct ScatterReadItem {
    pub extent_index: usize,
    pub data: Vec<u8>,
    pub ok: bool,
}

/// Reads each extent on its own; a failed read gives an empty item marked
/// not ok and the rest go on.
pub fn scatter_read<F>(extents: &[Extent], reader: &mut ExtentReader, read_fn: &F) -> (r: ExofsResult<Vec<ScatterReadItem>>)
    where
        F: Fn(DiskOffset, &mut [u8]) -> ExofsResult<usize>,
    requires
        forall|k: int| 0 <= k < extents@.len() ==> (#[trigger] extents@[k]).size <= usize::MAX,
        forall|o: DiskOffset, b: &mut [u8]| read_fn.requires((o, b)),
    ensures
        r matches Ok(items) && items@.len() == extents@.len() && forall|k: int| 0 <= k < items@.len() ==> {
            &&& (#[trigger] items@[k]).extent_index == k
            &&& extents@[k].size == 0 ==> !items@[k].ok
            &&& !items@[k].ok ==> items@[k].data@.len() == 0
            &&& items@[k].ok ==> items@[k].data@.len() <= extents@[k].size
                && reader_answered(*read_fn, extents@[k].offset, extents@[k].size as nat)
        },
        r matches Ok(items) && forall|k: int| 0 <= k < items@.len() ==> (#[trigger] items@[k]).ok || extents@[k].size == 0
            || (exists|e: ExofsError| reader_failed(*read_fn, extents@[k].offset, e))
            || reader_answered(*read_fn, extents@[k].offset, extents@[k].size as nat),
{
    let mut out: Vec<ScatterReadItem> = Vec::new();
    let mut i: usize = 0;
    while i < extents.len()
        invariant
            forall|k: int| 0 <= k < extents@.len() ==> (#[trigger] extents@[k]).size <= usize::MAX,
            forall|o: DiskOffset, b: &mut [u8]| read_fn.requires((o, b)),
            0 <= i <= extents@.len(),
            out@.len() == i,
            forall|k: int| 0 <= k < i ==> {
                &&& (#[trigger] out@[k]).extent_index == k
                &&& extents@[k].size == 0 ==> !out@[k].ok
                &&& !out@[k].ok ==> out@[k].data@.len() == 0
                &&& out@[k].ok ==> out@[k].data@.len() <= extents@[k].size
                    && reader_answered(*read_fn, extents@[k].offset, extents@[k].size as nat)
                &&& out@[k].ok || extents@[k].size == 0 || (exists|e: ExofsError| reader_failed(*read_fn, extents@[k].offset, e))
                    || reader_answered(*read_fn, extents@[k].offset, extents@[k].size as nat)
            },
        decreases extents.len() - i,
    {
        let ext = extents[i];
        proof {
            assert(extents@[i as int] == ext);
        }
        let item = match reader.read(ext.offset, ext.size, read_fn) {
            Ok(res) => ScatterReadItem { extent_index: i, data: res.data, ok: true },
            Err(e) => {
                proof {
                    if ext.size > 0 && !reader_failed(*read_fn, ext.offset, e) {
                        assert(reader_answered(*read_fn, ext.offset, ext.size as nat));
                    }
                }
                ScatterReadItem { extent_index: i, data: Vec::new(), ok: false }
            },
        };
        out.push(item);
        i += 1;
    }
    Ok(out)
}

/// Walks the blocks of an extent.
pub struct ExtentBlockIterator {
    current_offset: u64,
    end_offset: u64,
}

impl View for ExtentBlockIterator {
    /// The next offset and the end of the walk.
    type V = (u64, u64);

    closed spec fn view(&self) -> (u64, u64) {
        (self.current_offset, self.end_offset)
    }
}

impl ExtentBlockIterator {
    /// A walk from the start of `extent` to its end, clamped to `u64::MAX`.
    pub fn new(extent: &Extent) -> (r: ExtentBlockIterator)
        ensures
            r@ == (extent.offset.0, sat64(extent.offset.0 as int, extent.size as int) as u64),
    {
        ExtentBlockIterator { current_offset: extent.offset.0, end_offset: extent.offset.0.saturating_add(extent.size) }
    }

    /// The next block, if the walk has not reached the end.
    pub fn next_block(&mut self) -> (r: Option<DiskOffset>)
        ensures
            old(self)@.0 >= old(self)@.1 ==> r is None && final(self)@ == old(self)@,
            old(self)@.0 < old(self)@.1 ==> r == Some(DiskOffset(old(self)@.0))
                && final(self)@ == (sat64(old(self)@.0 as int, 4096) as u64, old(self)@.1),
    {
        if self.current_offset >= self.end_offset {
            return None;
        }
        let off = self.current_offset;
        self.current_offset = self.current_offset.saturating_add(4096);
        Some(DiskOffset(off))
    }

    /// Whole blocks left before the end.
    pub fn remaining_blocks(&self) -> (r: u64)
        ensures
            r == (if self@.1 > self@.0 { (self@.1 - self@.0) / 4096 } else { 0 }),
    {
        self.end_offset.saturating_sub(self.current_offset) / 4096
    }

    /// Starts the walk over on `extent`.
    pub fn reset(&mut self, extent: &Extent)
        ensures
            final(self)@ == (extent.offset.0, sat64(extent.offset.0 as int, extent.size as int) as u64),
    {
        self.current_offset = extent.offset.0;
        self.end_offset = extent.offset.0.saturating_add(extent.size);
    }
}

} // verus!
