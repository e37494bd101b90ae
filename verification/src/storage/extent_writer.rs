//! Writing data to extents of the volume through a caller-supplied writer.
use vstd::prelude::*;
use crate::types::{DiskOffset, ExofsError, ExofsResult};
use crate::storage::block_cache::BlockCache;
use crate::storage::compression_choice::wadd;
use crate::bytes::push_bytes;

verus! {

/// A contiguous byte range of the volume.
#[derive(Clone, Copy, Debug, PartialEq, Eq, Structural)]
pub struct Extent {
    pub offset: DiskOffset,
    pub size: u64,
}

/// `a + b` clamped to `u64::MAX`.
pub open spec fn sat64(a: int, b: int) -> int {
    if a + b > u64::MAX { u64::MAX as int } else { a + b }
}

impl Extent {
    /// The extent of `size` bytes at `offset`.
    pub fn new(offset: DiskOffset, size: u64) -> (r: Extent)
        ensures
            r == (Extent { offset, size }),
    {
        Extent { offset, size }
    }

    /// End offset (exclusive), if it fits in 64 bits.
    pub fn end(&self) -> (r: Option<DiskOffset>)
        ensures
            self.offset.0 + self.size <= u64::MAX ==> r == Some(DiskOffset((self.offset.0 + self.size) as u64)),
            self.offset.0 + self.size > u64::MAX ==> r is None,
    {
        match self.offset.0.checked_add(self.size) {
            Some(e) => Some(DiskOffset(e)),
            None => None,
        }
    }

    /// Blocks of 4 KB needed for the extent.
    pub fn block_count(&self) -> (r: u64)
        ensures
            r == sat64(self.size as int, 4095) / 4096,
    {
        self.size.saturating_add(4095) / 4096
    }

    /// Offset and size are multiples of 4 KB.
    pub fn is_block_aligned(&self) -> (r: bool)
        ensures
            r == (self.offset.0 % 4096 == 0 && self.size % 4096 == 0),
    {
        (self.offset.0 % 4096 == 0) && (self.size % 4096 == 0)
    }

    /// The two extents share a byte (ends clamped to `u64::MAX`).
    pub fn overlaps(&self, other: &Extent) -> (r: bool)
        ensures
            r == (self.offset.0 < sat64(other.offset.0 as int, other.size as int)
                && other.offset.0 < sat64(self.offset.0 as int, self.size as int)),
    {
        let self_end = self.offset.0.saturating_add(self.size);
        let other_end = other.offset.0.saturating_add(other.size);
        self.offset.0 < other_end && other.offset.0 < self_end
    }

    /// The extent holds the byte at `off`.
    pub fn contains_offset(&self, off: DiskOffset) -> (r: bool)
        ensures
            r == (off.0 >= self.offset.0 && off.0 < sat64(self.offset.0 as int, self.size as int)),
    {
        off.0 >= self.offset.0 && off.0 < self.offset.0.saturating_add(self.size)
    }
}

/// A block to write, padded to 4 KB.
#[derive(Debug)]
pub struct WriteSegment {
    pub offset: DiskOffset,
    pub data: Vec<u8>,
}

/// Result of a write.
#[derive(Clone, Copy, Debug)]
pub struct ExtentWriteResult {
    pub extent: Extent,
    pub bytes_written: u64,
    pub segments: u64,
}

/// `write_fn` accepted the bytes `bytes` at `off` and reported `n` bytes written.
pub open spec fn wrote<F>(write_fn: F, bytes: Seq<u8>, off: DiskOffset, n: usize) -> bool
    where
        F: Fn(&[u8], DiskOffset) -> ExofsResult<usize>,
{
    exists|b: &[u8]| b@ == bytes && #[trigger] call_ensures(write_fn, (b, off), Ok::<usize, ExofsError>(n))
}

/// The `k`-th 4 KB chunk of `data`.
pub open spec fn chunk(data: Seq<u8>, k: int) -> Seq<u8> {
    data.subrange(k * 4096, if (k + 1) * 4096 < data.len() { (k + 1) * 4096 } else { data.len() as int })
}

/// Number of 4 KB chunks of `data`.
pub open spec fn chunk_count(data: Seq<u8>) -> int {
    ((data.len() + 4095) / 4096) as int
}

/// Abstract counters of a writer.
pub struct ExtentWriterView {
    pub bytes_written: u64,
    pub write_ops: u64,
    pub errors: u64,
}

/// Writer of extents.
pub struct ExtentWriter {
    bytes_written: u64,
    write_ops: u64,
    errors: u64,
}

impl View for ExtentWriter {
    type V = ExtentWriterView;

    closed spec fn view(&self) -> ExtentWriterView {
        ExtentWriterView { bytes_written: self.bytes_written, write_ops: self.write_ops, errors: self.errors }
    }
}

impl ExtentWriter {
    /// Zero counters.
    pub fn new() -> (r: ExtentWriter)
        ensures
            r@ == (ExtentWriterView { bytes_written: 0, write_ops: 0, errors: 0 }),
    {
        ExtentWriter { bytes_written: 0, write_ops: 0, errors: 0 }
    }

    /// Writes `data` at `offset` in one call; a short write is an error.
    pub fn write<F>(&mut self, offset: DiskOffset, data: &[u8], write_fn: &F) -> (r: ExofsResult<ExtentWriteResult>)
        where
            F: Fn(&[u8], DiskOffset) -> ExofsResult<usize>,
        requires
            forall|b: &[u8], o: DiskOffset| write_fn.requires((b, o)),
        ensures
            data@.len() == 0 ==> r == Err::<ExtentWriteResult, ExofsError>(ExofsError::InvalidArgument) && final(self)@ == old(self)@,
            r matches Ok(w) ==> data@.len() > 0 && wrote(write_fn, data@, offset, data@.len() as usize)
                && w == (ExtentWriteResult { extent: Extent { offset, size: data@.len() as u64 }, bytes_written: data@.len() as u64, segments: 1 })
                && final(self)@ == (ExtentWriterView {
                    bytes_written: wadd(old(self)@.bytes_written, data@.len() as u64),
                    write_ops: wadd(old(self)@.write_ops, 1),
                    ..old(self)@
                }),
            r matches Err(e) && e == ExofsError::ShortWrite ==> final(self)@ == (ExtentWriterView { errors: wadd(old(self)@.errors, 1), ..old(self)@ })
                || final(self)@ == old(self)@,
            r is Err ==> final(self)@.bytes_written == old(self)@.bytes_written && final(self)@.write_ops == old(self)@.write_ops,
    {
        if data.len() == 0 {
            return Err(ExofsError::InvalidArgument);
        }
        let expected = data.len();
        let n = write_fn(data, offset)?;
        if n != expected {
            self.errors = self.errors.wrapping_add(1);
            return Err(ExofsError::ShortWrite);
        }
        proof {
            assert(call_ensures(write_fn, (data, offset), Ok::<usize, ExofsError>(n)));
        }
        self.bytes_written = self.bytes_written.wrapping_add(n as u64);
        self.write_ops = self.write_ops.wrapping_add(1);
        let extent = Extent::new(offset, n as u64);
        Ok(ExtentWriteResult { extent, bytes_written: n as u64, segments: 1 })
    }

    /// Writes `data` block by block from `start_offset`.
    pub fn write_blocks<F>(&mut self, start_offset: DiskOffset, data: &[u8], write_fn: &F) -> (r: ExofsResult<ExtentWriteResult>)
        where
            F: Fn(&[u8], DiskOffset) -> ExofsResult<usize>,
        requires
            forall|b: &[u8], o: DiskOffset| write_fn.requires((b, o)),
        ensures
            data@.len() == 0 ==> r == Err::<ExtentWriteResult, ExofsError>(ExofsError::InvalidArgument) && final(self)@ == old(self)@,
            r matches Ok(w) ==> {
                &&& data@.len() > 0
                &&& forall|k: int| 0 <= k < chunk_count(data@) ==> #[trigger] wrote(write_fn, chunk(data@, k),
                    DiskOffset((start_offset.0 + k * 4096) as u64), chunk(data@, k).len() as usize)
                &&& w == (ExtentWriteResult {
                    extent: Extent { offset: start_offset, size: data@.len() as u64 },
                    bytes_written: data@.len() as u64,
                    segments: chunk_count(data@) as u64,
                })
                &&& final(self)@ == (ExtentWriterView {
                    bytes_written: wadd(old(self)@.bytes_written, data@.len() as u64),
                    write_ops: wadd(old(self)@.write_ops, chunk_count(data@) as u64),
                    ..old(self)@
                })
            },
            r is Err ==> final(self)@.bytes_written == old(self)@.bytes_written && final(self)@.write_ops == old(self)@.write_ops
                && (final(self)@.errors == old(self)@.errors || final(self)@.errors == wadd(old(self)@.errors, 1)),
            data@.len() > 0 && start_offset.0 + data@.len() <= u64::MAX
                && (forall|b: &[u8], o: DiskOffset, w: ExofsResult<usize>| #[trigger] call_ensures(*write_fn, (b, o), w)
                    ==> w == Ok::<usize, ExofsError>(b@.len() as usize)) ==> r is Ok,
    {
        if data.len() == 0 {
            return Err(ExofsError::InvalidArgument);
        }
        let ghost good = start_offset.0 + data@.len() <= u64::MAX
            && (forall|b: &[u8], o: DiskOffset, w: ExofsResult<usize>| #[trigger] call_ensures(*write_fn, (b, o), w)
                ==> w == Ok::<usize, ExofsError>(b@.len() as usize));
        let mut pos: usize = 0;
        let mut disk: u64 = start_offset.0;
        let mut total_written: u64 = 0;
        let mut seg_count: u64 = 0;
        while pos < data.len()
            invariant
                forall|b: &[u8], o: DiskOffset| write_fn.requires((b, o)),
                0 <= pos <= data@.len(),
                pos == seg_count * 4096 || pos == data@.len(),
                pos == data@.len() ==> seg_count == chunk_count(data@),
                pos < data@.len() ==> seg_count * 4096 == pos,
                total_written == pos,
                disk == start_offset.0 + pos,
                forall|k: int| 0 <= k < seg_count ==> #[trigger] wrote(write_fn, chunk(data@, k),
                    DiskOffset((start_offset.0 + k * 4096) as u64), chunk(data@, k).len() as usize),
                self@ == old(self)@,
                good == (start_offset.0 + data@.len() <= u64::MAX
                    && (forall|b: &[u8], o: DiskOffset, w: ExofsResult<usize>| #[trigger] call_ensures(*write_fn, (b, o), w)
                        ==> w == Ok::<usize, ExofsError>(b@.len() as usize))),
            decreases data@.len() - pos,
        {
            let chunk_len = if data.len() - pos < 4096 { data.len() - pos } else { 4096 };
            let ch = vstd::slice::slice_subrange(data, pos, pos + chunk_len);
            let off = DiskOffset(disk);
            let n = write_fn(ch, off)?;
            if n != chunk_len {
                self.errors = self.errors.wrapping_add(1);
                return Err(ExofsError::ShortWrite);
            }
            proof {
                assert(ch@ == chunk(data@, seg_count as int));
                assert(call_ensures(write_fn, (ch, off), Ok::<usize, ExofsError>(n)));
                assert(wrote(write_fn, chunk(data@, seg_count as int), DiskOffset((start_offset.0 + seg_count * 4096) as u64),
                    chunk(data@, seg_count as int).len() as usize));
            }
            total_written = match total_written.checked_add(n as u64) {
                Some(t) => t,
                None => return Err(ExofsError::Overflow),
            };
            disk = match disk.checked_add(n as u64) {
                Some(d) => d,
                None => return Err(ExofsError::Overflow),
            };
            pos = pos + n;
            seg_count = seg_count + 1;
            proof {
                if pos == data@.len() {
                    assert(seg_count == chunk_count(data@)) by (nonlinear_arith)
                        requires pos == data@.len(), pos > (seg_count - 1) * 4096, pos <= seg_count * 4096, seg_count >= 1;
                }
            }
        }
        self.bytes_written = self.bytes_written.wrapping_add(total_written);
        self.write_ops = self.write_ops.wrapping_add(seg_count);
        let extent = Extent::new(start_offset, total_written);
        Ok(ExtentWriteResult { extent, bytes_written: total_written, segments: seg_count })
    }

    /// Stores one block in the cache as dirty.
    pub fn write_cached(&self, offset: DiskOffset, data: &[u8], cache: &mut BlockCache) -> (r: ExofsResult<ExtentWriteResult>)
        requires
            old(cache).wf(),
        ensures
            final(cache).wf(),
            data@.len() != 4096 ==> r == Err::<ExtentWriteResult, ExofsError>(ExofsError::InvalidArgument) && final(cache)@ == old(cache)@,
            data@.len() == 4096 && old(cache)@.capacity > 0 && (!crate::storage::block_cache::no_entry(old(cache)@.entries, offset)
                || !crate::storage::block_cache::full_of_dirty(old(cache)@)) ==> r is Ok,
            data@.len() == 4096 && crate::storage::block_cache::no_entry(old(cache)@.entries, offset)
                && crate::storage::block_cache::full_of_dirty(old(cache)@)
                ==> r == Err::<ExtentWriteResult, ExofsError>(ExofsError::BufferFull),
            r matches Ok(w) ==> w == (ExtentWriteResult { extent: Extent { offset, size: 4096 }, bytes_written: 4096, segments: 1 })
                && exists|i: int| #[trigger] crate::storage::block_cache::entry_at(final(cache)@.entries, offset, i)
                    && final(cache)@.entries[i].data == data@,
    {
        if data.len() != 4096 {
            return Err(ExofsError::InvalidArgument);
        }
        let ghost es = old(cache)@.entries;
        proof {
            if !crate::storage::block_cache::no_entry(es, offset) {
                let j = choose|j: int| 0 <= j < es.len() && !(es[j].offset != offset);
                assert(crate::storage::block_cache::entry_at(es, offset, j));
            }
        }
        cache.write_block_dirty(offset, data)?;
        Ok(ExtentWriteResult { extent: Extent::new(offset, 4096), bytes_written: 4096, segments: 1 })
    }

    /// `offset` rounded up to a multiple of 4 KB.
    pub fn align_to_block(offset: u64) -> (r: u64)
        requires
            offset + 4095 <= u64::MAX,
        ensures
            r == crate::storage::layout::round_up(offset as int, 4096),
    {
        proof {
            crate::storage::layout::lemma_mask_4096((offset + 4095) as u64);
        }
        (offset + 4095) & !0xfffu64
    }

    /// Splits `data` into 4 KB segments, the last one zero-padded, at
    /// consecutive offsets from `start_offset`.
    pub fn split_into_segments(start_offset: DiskOffset, data: &[u8]) -> (r: ExofsResult<Vec<WriteSegment>>)
        ensures
            start_offset.0 + chunk_count(data@) * 4096 <= u64::MAX ==> (r matches Ok(segs) && segs@.len() == chunk_count(data@)
                && forall|k: int| 0 <= k < segs@.len() ==> {
                    &&& (#[trigger] segs@[k]).offset == DiskOffset((start_offset.0 + k * 4096) as u64)
                    &&& segs@[k].data@ == chunk(data@, k) + Seq::new((4096 - chunk(data@, k).len()) as nat, |i: int| 0u8)
                }),
            start_offset.0 + chunk_count(data@) * 4096 > u64::MAX ==> r == Err::<Vec<WriteSegment>, ExofsError>(ExofsError::Overflow),
    {
        let mut segs: Vec<WriteSegment> = Vec::new();
        let mut pos: usize = 0;
        let mut disk: u64 = start_offset.0;
        let mut k: usize = 0;
        while pos < data.len()
            invariant
                0 <= pos <= data@.len(),
                pos < data@.len() ==> pos == k * 4096,
                pos == data@.len() ==> k == chunk_count(data@),
                disk == start_offset.0 + k * 4096,
                segs@.len() == k,
                k * 4096 <= data@.len() + 4095,
                start_offset.0 + k * 4096 <= u64::MAX,
                forall|j: int| 0 <= j < k ==> {
                    &&& (#[trigger] segs@[j]).offset == DiskOffset((start_offset.0 + j * 4096) as u64)
                    &&& segs@[j].data@ == chunk(data@, j) + Seq::new((4096 - chunk(data@, j).len()) as nat, |i: int| 0u8)
                },
            decreases data@.len() - pos,
        {
            let len = if data.len() - pos < 4096 { data.len() - pos } else { 4096 };
            let ch = vstd::slice::slice_subrange(data, pos, pos + len);
            let mut seg_data: Vec<u8> = Vec::new();
            push_bytes(&mut seg_data, ch);
            while seg_data.len() < 4096
                invariant
                    seg_data@.len() <= 4096,
                    len <= 4096,
                    seg_data@.len() >= len,
                    seg_data@ == ch@ + Seq::new((seg_data@.len() - len) as nat, |i: int| 0u8),
                decreases 4096 - seg_data@.len(),
            {
                let ghost before = seg_data@;
                seg_data.push(0u8);
                proof {
                    assert(seg_data@ =~= ch@ + Seq::new((seg_data@.len() - len) as nat, |i: int| 0u8));
                }
            }
            proof {
                assert(ch@ == chunk(data@, k as int));
            }
            let ghost before = segs@;
            segs.push(WriteSegment { offset: DiskOffset(disk), data: seg_data });
            let next = disk.checked_add(4096);
            pos = pos + len;
            k = k + 1;
            proof {
                if pos == data@.len() {
                    assert(k == chunk_count(data@)) by (nonlinear_arith)
                        requires pos == data@.len(), pos > (k - 1) * 4096, pos <= k * 4096, k >= 1;
                }
                assert forall|j: int| 0 <= j < k implies {
                    &&& (#[trigger] segs@[j]).offset == DiskOffset((start_offset.0 + j * 4096) as u64)
                    &&& segs@[j].data@ == chunk(data@, j) + Seq::new((4096 - chunk(data@, j).len()) as nat, |i: int| 0u8)
                } by {
                    if j < k - 1 {
                        assert(segs@[j] == before[j]);
                    }
                }
            }
            disk = match next {
                Some(d) => d,
                None => {
                    proof {
                        assert(start_offset.0 + chunk_count(data@) * 4096 > u64::MAX) by (nonlinear_arith)
                            requires disk + 4096 > u64::MAX, disk == start_offset.0 + (k - 1) * 4096, k <= chunk_count(data@),
                                k >= 1;
                    }
                    return Err(ExofsError::Overflow);
                },
            };
        }
        proof {
            if data@.len() == 0 {
                assert(chunk_count(data@) == 0);
            }
        }
        Ok(segs)
    }

    /// Bytes written.
    pub fn total_bytes_written(&self) -> (r: u64)
        ensures
            r == self@.bytes_written,
    {
        self.bytes_written
    }

    /// Write calls made.
    pub fn total_write_ops(&self) -> (r: u64)
        ensures
            r == self@.write_ops,
    {
        self.write_ops
    }

    /// Short writes seen.
    pub fn error_count(&self) -> (r: u64)
        ensures
            r == self@.errors,
    {
        self.errors
    }
}

impl Default for ExtentWriter {
    fn default() -> (r: ExtentWriter)
        ensures
            r@ == (ExtentWriterView { bytes_written: 0, write_ops: 0, errors: 0 }),
    {
        ExtentWriter::new()
    }
}

/// Saturating sum of the sizes of the first `k` extents.
pub open spec fn sizes_upto(es: Seq<Extent>, k: int) -> int
    decreases k,
{
    if k <= 0 { 0 } else { sat64(sizes_upto(es, k - 1), es[k - 1].size as int) }
}

fn sum_sizes(es: &[Extent]) -> (r: u64)
    ensures
        r == sizes_upto(es@, es@.len() as int),
{
    let mut acc: u64 = 0;
    let mut i: usize = 0;
    while i < es.len()
        invariant
            0 <= i <= es@.len(),
            acc == sizes_upto(es@, i as int),
        decreases es.len() - i,
    {
        acc = acc.saturating_add(es[i].size);
        i += 1;
    }
    acc
}

/// A list of extents.
pub struct ExtentMap {
    extents: Vec<Extent>,
}

impl View for ExtentMap {
    type V = Seq<Extent>;

    closed spec fn view(&self) -> Seq<Extent> {
        self.extents@
    }
}

impl ExtentMap {
    /// An empty list.
    pub fn new() -> (r: ExtentMap)
        ensures
            r@ == Seq::<Extent>::empty(),
    {
        ExtentMap { extents: Vec::new() }
    }

    /// Appends an extent.
    pub fn add(&mut self, extent: Extent) -> (r: ExofsResult<()>)
        ensures
            r == Ok::<(), ExofsError>(()),
            final(self)@ == old(self)@.push(extent),
    {
        self.extents.push(extent);
        Ok(())
    }

    /// Saturating sum of the sizes.
    pub fn total_bytes(&self) -> (r: u64)
        ensures
            r == sizes_upto(self@, self@.len() as int),
    {
        sum_sizes(self.extents.as_slice())
    }

    /// Number of extents.
    pub fn count(&self) -> (r: usize)
        ensures
            r == self@.len(),
    {
        self.extents.len()
    }

    /// The extents.
    pub fn extents(&self) -> (r: &[Extent])
        ensures
            r@ == self@,
    {
        self.extents.as_slice()
    }

    /// The first extent holding `off`.
    pub fn find_extent(&self, off: DiskOffset) -> (r: Option<&Extent>)
        ensures
            r is None ==> forall|j: int| 0 <= j < self@.len() ==> !(off.0 >= (#[trigger] self@[j]).offset.0
                && off.0 < sat64(self@[j].offset.0 as int, self@[j].size as int)),
            r matches Some(e) ==> exists|i: int| 0 <= i < self@.len() && *e == #[trigger] self@[i]
                && off.0 >= e.offset.0 && off.0 < sat64(e.offset.0 as int, e.size as int)
                && forall|j: int| 0 <= j < i ==> !(off.0 >= (#[trigger] self@[j]).offset.0
                    && off.0 < sat64(self@[j].offset.0 as int, self@[j].size as int)),
    {
        let mut i: usize = 0;
        while i < self.extents.len()
            invariant
                forall|j: int| 0 <= j < i ==> !(off.0 >= (#[trigger] self@[j]).offset.0
                    && off.0 < sat64(self@[j].offset.0 as int, self@[j].size as int)),
            decreases self.extents.len() - i,
        {
            if self.extents[i].contains_offset(off) {
                proof {
                    assert(self@[i as int] == self.extents@[i as int]);
                }
                return Some(&self.extents[i]);
            }
            i += 1;
        }
        None
    }

    /// True iff the list is empty.
    pub fn is_empty(&self) -> (r: bool)
        ensures
            r == (self@.len() == 0),
    {
        self.extents.len() == 0
    }
}

/// Result of a scattered write.
pub struct MultiExtentWriteResult {
    pub extents: Vec<Extent>,
    pub total_written: u64,
    pub segments: u64,
}

impl MultiExtentWriteResult {
    /// Saturating sum of the sizes of the written extents.
    pub fn all_extents_size(&self) -> (r: u64)
        ensures
            r == sizes_upto(self.extents@, self.extents@.len() as int),
    {
        sum_sizes(self.extents.as_slice())
    }
}

/// Where the first `k` extents end in the data when `len` bytes are
/// spread over them in order.
pub open spec fn spread(es: Seq<Extent>, len: int, k: int) -> int
    decreases k,
{
    if k <= 0 {
        0
    } else {
        let p = spread(es, len, k - 1);
        let want = es[k - 1].size as int;
        if p >= len { p } else if want < len - p { p + want } else { len }
    }
}

/// Length of the `k`-th block-sized piece of `e`.
pub open spec fn zero_piece(e: Extent, k: int) -> int {
    if e.size - k * 4096 < 4096 { e.size - k * 4096 } else { 4096 }
}

/// The writer was handed `zero_piece(e, k)` zero bytes for the `k`-th block of `e`.
pub open spec fn zeroed_block<F>(write_fn: F, e: Extent, k: int) -> bool
    where
        F: Fn(&[u8], DiskOffset) -> ExofsResult<usize>,
{
    wrote(write_fn, Seq::new(zero_piece(e, k) as nat, |i: int| 0u8), DiskOffset((e.offset.0 + k * 4096) as u64),
        zero_piece(e, k) as usize)
}

/// Writing the `k`-th block of zeros of `e` failed with `err`: the writer
/// refused it, wrote less than asked, or the next offset would pass
/// `u64::MAX`.
pub open spec fn zero_failed<F>(write_fn: F, e: Extent, k: int, err: ExofsError) -> bool
    where
        F: Fn(&[u8], DiskOffset) -> ExofsResult<usize>,
{
    let piece = Seq::new(zero_piece(e, k) as nat, |i: int| 0u8);
    let off = DiskOffset((e.offset.0 + k * 4096) as u64);
    ||| exists|b: &[u8]| b@ == piece && #[trigger] call_ensures(write_fn, (b, off), Err::<usize, ExofsError>(err))
    ||| (err == ExofsError::ShortWrite && exists|b: &[u8], n: usize| b@ == piece && n != zero_piece(e, k)
        && #[trigger] call_ensures(write_fn, (b, off), Ok::<usize, ExofsError>(n)))
    ||| (err == ExofsError::Overflow && zeroed_block(write_fn, e, k) && e.offset.0 + k * 4096 + zero_piece(e, k) > u64::MAX)
}

/// Counters of a writer.
#[derive(Clone, Copy, Debug)]
pub struct ExtentWriterStats {
    pub bytes_written: u64,
    pub write_ops: u64,
    pub errors: u64,
}

impl ExtentWriter {
    /// Spreads `data` over `extents` in order, filling each before the next.
    pub fn write_scattered<F>(&mut self, extents: &[Extent], data: &[u8], write_fn: &F) -> (r: ExofsResult<MultiExtentWriteResult>)
        where
            F: Fn(&[u8], DiskOffset) -> ExofsResult<usize>,
        requires
            forall|b: &[u8], o: DiskOffset| write_fn.requires((b, o)),
        ensures
            extents@.len() == 0 || data@.len() == 0 ==> (r matches Err(e) && e == ExofsError::InvalidArgument),
            extents@.len() > 0 && data@.len() > 0 && data@.len() > sizes_upto(extents@, extents@.len() as int)
                ==> (r matches Err(e) && e == ExofsError::InvalidSize),
            r matches Ok(m) ==> {
                &&& m.total_written == data@.len()
                &&& m.extents@.len() == m.segments
                &&& m.segments <= extents@.len()
                &&& forall|k: int| 0 <= k < m.extents@.len() ==> {
                    let a = spread(extents@, data@.len() as int, k);
                    let b = spread(extents@, data@.len() as int, k + 1);
                    &&& (#[trigger] m.extents@[k]) == (Extent { offset: extents@[k].offset, size: (b - a) as u64 })
                    &&& wrote(write_fn, data@.subrange(a, b), extents@[k].offset, (b - a) as usize)
                }
                &&& final(self)@ == (ExtentWriterView {
                    bytes_written: wadd(old(self)@.bytes_written, data@.len() as u64),
                    write_ops: wadd(old(self)@.write_ops, m.segments),
                    ..old(self)@
                })
            },
            r is Err ==> final(self)@.bytes_written == old(self)@.bytes_written && final(self)@.write_ops == old(self)@.write_ops
                && (final(self)@.errors == old(self)@.errors || final(self)@.errors == wadd(old(self)@.errors, 1)),
    {
        if extents.len() == 0 || data.len() == 0 {
            return Err(ExofsError::InvalidArgument);
        }
        let total_cap = sum_sizes(extents);
        if data.len() as u64 > total_cap {
            return Err(ExofsError::InvalidSize);
        }
        let ghost len = data@.len() as int;
        let mut pos: usize = 0;
        let mut seg_count: u64 = 0;
        let mut total_write: u64 = 0;
        let mut result_exts: Vec<Extent> = Vec::new();
        let mut i: usize = 0;
        while i < extents.len() && pos < data.len()
            invariant
                forall|b: &[u8], o: DiskOffset| write_fn.requires((b, o)),
                0 <= i <= extents@.len(),
                len == data@.len(),
                pos == spread(extents@, len, i as int),
                0 <= pos <= len,
                total_write == pos,
                seg_count == i,
                result_exts@.len() == i,
                len <= sizes_upto(extents@, extents@.len() as int),
                forall|k: int| 0 <= k < i ==> {
                    let a = spread(extents@, len, k);
                    let b = spread(extents@, len, k + 1);
                    &&& (#[trigger] result_exts@[k]) == (Extent { offset: extents@[k].offset, size: (b - a) as u64 })
                    &&& wrote(write_fn, data@.subrange(a, b), extents@[k].offset, (b - a) as usize)
                },
                self@ == old(self)@,
            decreases extents.len() - i,
        {
            proof {
                lemma_spread_mono(extents@, len, i as int);
            }
            let ext = extents[i];
            let rest: usize = data.len() - pos;
            let chunk_len: usize = if ext.size < rest as u64 { ext.size as usize } else { rest };
            let ch = vstd::slice::slice_subrange(data, pos, pos + chunk_len);
            let n = write_fn(ch, ext.offset)?;
            if n != chunk_len {
                self.errors = self.errors.wrapping_add(1);
                return Err(ExofsError::ShortWrite);
            }
            proof {
                assert(call_ensures(write_fn, (ch, ext.offset), Ok::<usize, ExofsError>(n)));
            }
            let ghost before = result_exts@;
            result_exts.push(Extent::new(ext.offset, n as u64));
            total_write = total_write + n as u64;
            pos = pos + n;
            seg_count = seg_count + 1;
            proof {
                assert forall|k: int| 0 <= k < i + 1 implies {
                    let a = spread(extents@, len, k);
                    let b = spread(extents@, len, k + 1);
                    &&& (#[trigger] result_exts@[k]) == (Extent { offset: extents@[k].offset, size: (b - a) as u64 })
                    &&& wrote(write_fn, data@.subrange(a, b), extents@[k].offset, (b - a) as usize)
                } by {
                    if k < i {
                        assert(result_exts@[k] == before[k]);
                    } else {
                        assert(spread(extents@, len, k + 1) == pos);
                        assert(data@.subrange(spread(extents@, len, k), spread(extents@, len, k + 1)) == ch@);
                    }
                }
            }
            i += 1;
        }
        proof {
            if pos != len {
                lemma_spread_covers(extents@, len, extents@.len() as int);
            }
        }
        self.bytes_written = self.bytes_written.wrapping_add(total_write);
        self.write_ops = self.write_ops.wrapping_add(seg_count);
        Ok(MultiExtentWriteResult { extents: result_exts, total_written: total_write, segments: seg_count })
    }

    /// Writes zeros over the extent, one block at a time; returns the bytes written.
    pub fn zero_extent<F>(&self, extent: &Extent, write_fn: &F) -> (r: ExofsResult<u64>)
        where
            F: Fn(&[u8], DiskOffset) -> ExofsResult<usize>,
        requires
            forall|b: &[u8], o: DiskOffset| write_fn.requires((b, o)),
        ensures
            r matches Ok(n) ==> n == extent.size && forall|k: int| 0 <= k < (extent.size + 4095) / 4096 ==> #[trigger] zeroed_block(write_fn, *extent, k),
            r matches Err(err) ==> exists|k: int| 0 <= k < (extent.size + 4095) / 4096
                && (forall|j: int| 0 <= j < k ==> #[trigger] zeroed_block(write_fn, *extent, j))
                && #[trigger] zero_failed(*write_fn, *extent, k, err),
    {
        let mut zero_blk: Vec<u8> = Vec::new();
        let mut z: usize = 0;
        while z < 4096
            invariant
                0 <= z <= 4096,
                zero_blk@ == Seq::new(z as nat, |i: int| 0u8),
            decreases 4096 - z,
        {
            zero_blk.push(0u8);
            proof {
                assert(zero_blk@ =~= Seq::new((z + 1) as nat, |i: int| 0u8));
            }
            z += 1;
        }
        let mut remaining: u64 = extent.size;
        let mut disk: u64 = extent.offset.0;
        let mut total: u64 = 0;
        let mut k: u64 = 0;
        while remaining > 0
            invariant
                forall|b: &[u8], o: DiskOffset| write_fn.requires((b, o)),
                zero_blk@ == Seq::new(4096, |i: int| 0u8),
                total == k * 4096 || remaining == 0,
                total + remaining == extent.size,
                remaining > 0 ==> total == k * 4096,
                remaining == 0 ==> k == (extent.size + 4095) / 4096,
                disk == extent.offset.0 + total,
                forall|j: int| 0 <= j < k ==> #[trigger] zeroed_block(write_fn, *extent, j),
            decreases remaining,
        {
            let to_write: usize = if remaining < 4096 { remaining as usize } else { 4096 };
            let ch = vstd::slice::slice_subrange(zero_blk.as_slice(), 0, to_write);
            proof {
                assert(ch@ =~= Seq::new(to_write as nat, |i: int| 0u8));
                assert(to_write == zero_piece(*extent, k as int));
                assert(k < (extent.size + 4095) / 4096) by (nonlinear_arith)
                    requires total == k * 4096, total + remaining == extent.size, remaining > 0;
            }
            let w = write_fn(ch, DiskOffset(disk));
            proof {
                assert(DiskOffset(disk) == DiskOffset((extent.offset.0 + k * 4096) as u64));
                assert(call_ensures(write_fn, (ch, DiskOffset(disk)), w));
            }
            let n = match w {
                Ok(n) => n,
                Err(err) => {
                    proof {
                        assert(call_ensures(*write_fn, (ch, DiskOffset(disk)), Err::<usize, ExofsError>(err)));
                        assert(zero_failed(*write_fn, *extent, k as int, err));
                    }
                    return Err(err);
                },
            };
            if n != to_write {
                proof {
                    assert(call_ensures(*write_fn, (ch, DiskOffset(disk)), Ok::<usize, ExofsError>(n)));
                    assert(n != zero_piece(*extent, k as int));
                    assert(zero_failed(*write_fn, *extent, k as int, ExofsError::ShortWrite));
                }
                return Err(ExofsError::ShortWrite);
            }
            proof {
                assert(call_ensures(write_fn, (ch, DiskOffset(disk)), Ok::<usize, ExofsError>(n)));
                assert(zeroed_block(*write_fn, *extent, k as int));
            }
            disk = match disk.checked_add(n as u64) {
                Some(d) => d,
                None => {
                    proof {
                        assert(zero_failed(*write_fn, *extent, k as int, ExofsError::Overflow));
                    }
                    return Err(ExofsError::Overflow);
                },
            };
            remaining = remaining - n as u64;
            total = total + n as u64;
            k = k + 1;
            proof {
                if remaining == 0 {
                    assert(k == (extent.size + 4095) / 4096) by (nonlinear_arith)
                        requires total == extent.size, total > (k - 1) * 4096, total <= k * 4096, k >= 1;
                }
            }
        }
        Ok(total)
    }

    /// Counters of the writer.
    pub fn stats(&self) -> (r: ExtentWriterStats)
        ensures
            r == (ExtentWriterStats { bytes_written: self@.bytes_written, write_ops: self@.write_ops, errors: self@.errors }),
    {
        ExtentWriterStats { bytes_written: self.bytes_written, write_ops: self.write_ops, errors: self.errors }
    }
}

/// The spread grows and never passes the data.
pub proof fn lemma_spread_mono(es: Seq<Extent>, len: int, k: int)
    requires
        len >= 0,
        0 <= k < es.len(),
    ensures
        spread(es, len, k) <= spread(es, len, k + 1) <= len,
        0 <= spread(es, len, k),
    decreases k,
{
    if k > 0 {
        lemma_spread_mono(es, len, k - 1);
    }
}

/// When the extents can hold the data, spreading over all of them places it all.
pub proof fn lemma_spread_covers(es: Seq<Extent>, len: int, k: int)
    requires
        0 <= len <= sizes_upto(es, k),
        0 <= k <= es.len(),
    ensures
        spread(es, len, k) == len,
    decreases k,
{
    lemma_spread_reaches(es, len, k);
}

proof fn lemma_spread_reaches(es: Seq<Extent>, len: int, k: int)
    requires
        0 <= k <= es.len(),
        len >= 0,
    ensures
        spread(es, len, k) >= (if sizes_upto(es, k) < len { sizes_upto(es, k) } else { len }),
        spread(es, len, k) <= len,
    decreases k,
{
    if k > 0 {
        lemma_spread_reaches(es, len, k - 1);
    }
}

} // verus!
