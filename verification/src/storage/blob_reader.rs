//! Reading a blob: the header is checked before the payload is touched,
//! the payload is decoded, and the identifier is checked over the result.
use vstd::prelude::*;
use crate::types::{BlobId, DiskOffset, ExofsError, ExofsResult};
use crate::hash::{blob_id_spec, verify_blob_id};
use crate::bytes::{get32, get64, le32, le64, lemma_get32_at, lemma_get64_at};
use crate::storage::blob_writer::{
    blob_total_disk_size, fresh_header, header_verdict, image_of, parse_header, prefix_of, reads_as, sealed,
    verify_blob_header, BlobHeaderDisk, BLOB_HEADER_MAGIC, BLOB_HEADER_SIZE, BLOB_MAX_SIZE,
};
use crate::storage::compression_choice::{type_code, CompressionType};
use crate::storage::compression_reader::{decode_spec, DecompressReader};
use crate::storage::layout::round_up;

verus! {

/// Largest original or stored size a header may announce (512 MiB).
pub const MAX_DECOMPRESSED_SIZE: usize = 536870912;
/// Header flag of an encrypted payload.
pub const BLOB_FLAG_ENCRYPTED: u8 = 4;

/// Counters of blob reads.
pub struct BlobReaderStats {
    pub total_reads: u64,
    pub total_bytes_read: u64,
    pub total_bytes_decompressed: u64,
    pub header_ok: u64,
    pub header_bad_magic: u64,
    pub header_bad_checksum: u64,
    pub blob_id_ok: u64,
    pub blob_id_mismatch: u64,
    pub decompress_errors: u64,
    pub read_errors: u64,
}

/// A copy of the counters of blob reads.
#[derive(Clone, Copy)]
pub struct BlobReaderStatsSnapshot {
    pub total_reads: u64,
    pub total_bytes_read: u64,
    pub total_bytes_decompressed: u64,
    pub header_ok: u64,
    pub header_bad_magic: u64,
    pub header_bad_checksum: u64,
    pub blob_id_ok: u64,
    pub blob_id_mismatch: u64,
    pub decompress_errors: u64,
    pub read_errors: u64,
}

impl BlobReaderStats {
    /// A copy of the counters.
    pub fn snapshot(&self) -> (r: BlobReaderStatsSnapshot)
        ensures
            r == (BlobReaderStatsSnapshot {
                total_reads: self.total_reads,
                total_bytes_read: self.total_bytes_read,
                total_bytes_decompressed: self.total_bytes_decompressed,
                header_ok: self.header_ok,
                header_bad_magic: self.header_bad_magic,
                header_bad_checksum: self.header_bad_checksum,
                blob_id_ok: self.blob_id_ok,
                blob_id_mismatch: self.blob_id_mismatch,
                decompress_errors: self.decompress_errors,
                read_errors: self.read_errors,
            }),
    {
        BlobReaderStatsSnapshot {
            total_reads: self.total_reads,
            total_bytes_read: self.total_bytes_read,
            total_bytes_decompressed: self.total_bytes_decompressed,
            header_ok: self.header_ok,
            header_bad_magic: self.header_bad_magic,
            header_bad_checksum: self.header_bad_checksum,
            blob_id_ok: self.blob_id_ok,
            blob_id_mismatch: self.blob_id_mismatch,
            decompress_errors: self.decompress_errors,
            read_errors: self.read_errors,
        }
    }
}

/// Which checks a read makes.
#[derive(Clone, Copy, Debug, PartialEq, Eq, Structural)]
pub enum BlobVerifyMode {
    /// Header and identifier.
    Full,
    /// Header only.
    HeaderOnly,
    /// Nothing (recovery scans).
    NoVerify,
}

/// What a blob read gave.
pub struct BlobReadResult {
    pub blob_id: BlobId,
    /// The decoded (raw) bytes.
    pub data: Vec<u8>,
    pub original_size: u32,
    pub stored_size: u32,
    pub algo: CompressionType,
    /// Header and payload bytes read.
    pub disk_bytes_read: u64,
    /// The identifier was checked and matched.
    pub id_verified: bool,
}

/// The algorithm of a header code of at most 2.
pub open spec fn algo_for(code: u8) -> CompressionType {
    if code == 0 {
        CompressionType::Uncompressed
    } else if code == 1 {
        CompressionType::Lz4
    } else {
        CompressionType::Zstd
    }
}

/// What the checks of a raw header give under `mode`.
pub open spec fn header_stage(raw: Seq<u8>, mode: BlobVerifyMode) -> ExofsResult<()> {
    if raw.len() < 64 {
        Err(ExofsError::InvalidSize)
    } else if mode != BlobVerifyMode::NoVerify && header_verdict(raw) is Err {
        header_verdict(raw)
    } else if raw[5] > 2 {
        Err(ExofsError::InvalidArgument)
    } else if get32(raw, 12) == 0 {
        Err(ExofsError::InvalidSize)
    } else if get32(raw, 8) > MAX_DECOMPRESSED_SIZE {
        Err(ExofsError::InvalidSize)
    } else if get32(raw, 12) > MAX_DECOMPRESSED_SIZE {
        Err(ExofsError::InvalidSize)
    } else {
        Ok(())
    }
}

/// What the payload `payload` read after header `h` decodes to under `mode`.
/// An encrypted payload is refused: this library holds no key.
pub open spec fn payload_stage(h: BlobHeaderDisk, payload: Seq<u8>, mode: BlobVerifyMode) -> ExofsResult<Seq<u8>> {
    if payload.len() < h.stored_size {
        Err(ExofsError::InvalidSize)
    } else if h.flags & BLOB_FLAG_ENCRYPTED != 0 {
        Err(ExofsError::InvalidState)
    } else if h.compression_algo > 2 {
        Err(ExofsError::InvalidArgument)
    } else {
        match decode_spec(payload.subrange(0, h.stored_size as int), algo_for(h.compression_algo), h.original_size as nat) {
            Err(e) => Err(e),
            Ok(d) => if mode == BlobVerifyMode::Full && blob_id_spec(d) != h.blob_id@ {
                Err(ExofsError::ChecksumMismatch)
            } else {
                Ok(d)
            },
        }
    }
}

/// `read_fn` gave `v` for `n` bytes at `off`.
pub open spec fn gave<R>(read_fn: R, off: DiskOffset, n: usize, v: ExofsResult<Vec<u8>>) -> bool
    where
        R: Fn(DiskOffset, usize) -> ExofsResult<Vec<u8>>,
{
    call_ensures(read_fn, (off, n), v)
}

/// The header read at `offset` passed the checks of `mode` and holds `h`.
pub open spec fn header_read<R>(read_fn: R, offset: DiskOffset, mode: BlobVerifyMode, h: BlobHeaderDisk) -> bool
    where
        R: Fn(DiskOffset, usize) -> ExofsResult<Vec<u8>>,
{
    exists|hv: Vec<u8>| gave(read_fn, offset, 64, Ok(hv)) && header_stage(hv@, mode) is Ok && #[trigger] reads_as(h, hv@)
}

/// What a read of the blob at `offset` under `mode` gives, in terms of what
/// `read_fn` returned.
pub open spec fn read_post<R>(read_fn: R, offset: DiskOffset, mode: BlobVerifyMode, r: ExofsResult<BlobReadResult>) -> bool
    where
        R: Fn(DiskOffset, usize) -> ExofsResult<Vec<u8>>,
{
    &&& r matches Ok(res) ==> exists|h: BlobHeaderDisk| #[trigger] header_read(read_fn, offset, mode, h) && {
        &&& offset.0 + 64 <= u64::MAX
        &&& exists|pv: Vec<u8>| #[trigger] gave(read_fn, DiskOffset((offset.0 + 64) as u64), h.stored_size as usize, Ok(pv))
            && payload_stage(h, pv@, mode) == Ok::<Seq<u8>, ExofsError>(res.data@)
        &&& res.blob_id.0@ == h.blob_id@
        &&& res.original_size == h.original_size
        &&& res.stored_size == h.stored_size
        &&& type_code(res.algo) == h.compression_algo
        &&& res.disk_bytes_read == 64 + h.stored_size
        &&& res.id_verified == (mode == BlobVerifyMode::Full)
    }
    &&& r matches Err(e) ==> {
        ||| gave(read_fn, offset, 64, Err(e))
        ||| exists|hv: Vec<u8>| #[trigger] gave(read_fn, offset, 64, Ok(hv)) && header_stage(hv@, mode) == Err::<(), ExofsError>(e)
        ||| exists|h: BlobHeaderDisk| #[trigger] header_read(read_fn, offset, mode, h) && {
            ||| (offset.0 + 64 > u64::MAX && e == ExofsError::Overflow)
            ||| gave(read_fn, DiskOffset((offset.0 + 64) as u64), h.stored_size as usize, Err(e))
            ||| exists|pv: Vec<u8>| #[trigger] gave(read_fn, DiskOffset((offset.0 + 64) as u64), h.stored_size as usize, Ok(pv))
                && payload_stage(h, pv@, mode) == Err::<Seq<u8>, ExofsError>(e)
        }
    }
}

/// Checks a raw header under `mode`; returns its fields.
pub fn decode_header(raw: &[u8], mode: BlobVerifyMode) -> (r: ExofsResult<BlobHeaderDisk>)
    ensures
        header_stage(raw@, mode) matches Err(e) ==> r == Err::<BlobHeaderDisk, ExofsError>(e),
        header_stage(raw@, mode) is Ok ==> (r matches Ok(h) && reads_as(h, raw@)),
{
    if raw.len() < BLOB_HEADER_SIZE {
        return Err(ExofsError::InvalidSize);
    }
    let hdr = match mode {
        BlobVerifyMode::NoVerify => parse_header(raw),
        _ => verify_blob_header(raw)?,
    };
    if hdr.compression_algo > 2 {
        return Err(ExofsError::InvalidArgument);
    }
    if hdr.stored_size == 0 {
        return Err(ExofsError::InvalidSize);
    }
    if hdr.original_size as usize > MAX_DECOMPRESSED_SIZE {
        return Err(ExofsError::InvalidSize);
    }
    if hdr.stored_size as usize > MAX_DECOMPRESSED_SIZE {
        return Err(ExofsError::InvalidSize);
    }
    Ok(hdr)
}

/// Decodes the payload read after header `hdr` and checks it under `mode`.
pub fn decode_payload(hdr: &BlobHeaderDisk, payload: &[u8], mode: BlobVerifyMode) -> (r: ExofsResult<Vec<u8>>)
    ensures
        payload_stage(*hdr, payload@, mode) matches Err(e) ==> r == Err::<Vec<u8>, ExofsError>(e),
        payload_stage(*hdr, payload@, mode) matches Ok(d) ==> (r matches Ok(v) && v@ == d),
{
    let stored = hdr.stored_size as usize;
    if payload.len() < stored {
        return Err(ExofsError::InvalidSize);
    }
    if (hdr.flags & BLOB_FLAG_ENCRYPTED) != 0 {
        return Err(ExofsError::InvalidState);
    }
    let algo = CompressionType::from_u8(hdr.compression_algo)?;
    proof {
        assert(algo == algo_for(hdr.compression_algo));
    }
    let body = vstd::slice::slice_subrange(payload, 0, stored);
    let data = DecompressReader::decompress_raw(body, algo, hdr.original_size as usize)?;
    if mode == BlobVerifyMode::Full {
        let id = BlobId(hdr.blob_id);
        if !verify_blob_id(&id, data.as_slice()) {
            return Err(ExofsError::ChecksumMismatch);
        }
    }
    Ok(data)
}

/// Reader of blobs.
pub struct BlobReader;

impl BlobReader {
    /// Reads the blob at `offset`: the header, checked under `mode`, then the
    /// payload, decoded and, in full mode, checked against the identifier.
    pub fn read_blob<R>(offset: DiskOffset, read_fn: R, mode: BlobVerifyMode) -> (r: ExofsResult<BlobReadResult>)
        where
            R: Fn(DiskOffset, usize) -> ExofsResult<Vec<u8>>,
        requires
            forall|o: DiskOffset, n: usize| read_fn.requires((o, n)),
        ensures
            read_post(read_fn, offset, mode, r),
    {
        Self::read_blob_with(offset, &read_fn, mode)
    }

    fn read_blob_with<R>(offset: DiskOffset, read_fn: &R, mode: BlobVerifyMode) -> (r: ExofsResult<BlobReadResult>)
        where
            R: Fn(DiskOffset, usize) -> ExofsResult<Vec<u8>>,
        requires
            forall|o: DiskOffset, n: usize| read_fn.requires((o, n)),
        ensures
            read_post(*read_fn, offset, mode, r),
    {
        let hdr_raw = match read_fn(offset, BLOB_HEADER_SIZE) {
            Ok(v) => v,
            Err(e) => {
                proof {
                    assert(gave(*read_fn, offset, 64, Err(e)));
                }
                return Err(e);
            },
        };
        proof {
            assert(gave(*read_fn, offset, 64, Ok(hdr_raw)));
        }
        let hdr = match decode_header(hdr_raw.as_slice(), mode) {
            Ok(h) => h,
            Err(e) => {
                return Err(e);
            },
        };
        proof {
            assert(header_read(*read_fn, offset, mode, hdr));
        }
        let payload_offset = match offset.0.checked_add(BLOB_HEADER_SIZE as u64) {
            Some(p) => DiskOffset(p),
            None => {
                return Err(ExofsError::Overflow);
            },
        };
        let payload = match read_fn(payload_offset, hdr.stored_size as usize) {
            Ok(v) => v,
            Err(e) => {
                proof {
                    assert(gave(*read_fn, payload_offset, hdr.stored_size as usize, Err(e)));
                }
                return Err(e);
            },
        };
        proof {
            assert(gave(*read_fn, payload_offset, hdr.stored_size as usize, Ok(payload)));
        }
        let data = match decode_payload(&hdr, payload.as_slice(), mode) {
            Ok(d) => d,
            Err(e) => {
                return Err(e);
            },
        };
        let algo = match CompressionType::from_u8(hdr.compression_algo) {
            Ok(a) => a,
            Err(e) => {
                return Err(e);
            },
        };
        Ok(BlobReadResult {
            blob_id: BlobId(hdr.blob_id),
            data,
            original_size: hdr.original_size,
            stored_size: hdr.stored_size,
            algo,
            disk_bytes_read: BLOB_HEADER_SIZE as u64 + hdr.stored_size as u64,
            id_verified: mode == BlobVerifyMode::Full,
        })
    }

    /// Reads and checks the header at `offset` alone.
    pub fn read_header<R>(offset: DiskOffset, read_fn: R) -> (r: ExofsResult<BlobHeaderInfo>)
        where
            R: Fn(DiskOffset, usize) -> ExofsResult<Vec<u8>>,
        requires
            forall|o: DiskOffset, n: usize| read_fn.requires((o, n)),
        ensures
            header_post(read_fn, offset, r),
    {
        Self::read_header_with(offset, &read_fn)
    }

    fn read_header_with<R>(offset: DiskOffset, read_fn: &R) -> (r: ExofsResult<BlobHeaderInfo>)
        where
            R: Fn(DiskOffset, usize) -> ExofsResult<Vec<u8>>,
        requires
            forall|o: DiskOffset, n: usize| read_fn.requires((o, n)),
        ensures
            header_post(*read_fn, offset, r),
    {
        let raw = match read_fn(offset, BLOB_HEADER_SIZE) {
            Ok(v) => v,
            Err(e) => {
                proof {
                    assert(gave(*read_fn, offset, 64, Err(e)));
                }
                return Err(e);
            },
        };
        proof {
            assert(gave(*read_fn, offset, 64, Ok(raw)));
        }
        let hdr = match verify_blob_header(raw.as_slice()) {
            Ok(h) => h,
            Err(e) => {
                return Err(e);
            },
        };
        let algo = match CompressionType::from_u8(hdr.compression_algo) {
            Ok(a) => a,
            Err(e) => {
                return Err(e);
            },
        };
        Ok(BlobHeaderInfo {
            blob_id: BlobId(hdr.blob_id),
            original_size: hdr.original_size,
            stored_size: hdr.stored_size,
            algo,
            epoch: hdr.epoch,
        })
    }
}

/// What a header-only read at `offset` gives, in terms of what `read_fn`
/// returned.
pub open spec fn header_post<R>(read_fn: R, offset: DiskOffset, r: ExofsResult<BlobHeaderInfo>) -> bool
    where
        R: Fn(DiskOffset, usize) -> ExofsResult<Vec<u8>>,
{
    &&& r matches Ok(info) ==> exists|hv: Vec<u8>| #[trigger] gave(read_fn, offset, 64, Ok(hv)) && {
        &&& header_verdict(hv@) is Ok
        &&& hv@[5] <= 2
        &&& info.blob_id.0@ == hv@.subrange(24, 56)
        &&& info.original_size == get32(hv@, 8)
        &&& info.stored_size == get32(hv@, 12)
        &&& type_code(info.algo) == hv@[5]
        &&& info.epoch == get64(hv@, 16)
    }
    &&& r matches Err(e) ==> {
        ||| gave(read_fn, offset, 64, Err(e))
        ||| exists|hv: Vec<u8>| #[trigger] gave(read_fn, offset, 64, Ok(hv)) && {
            ||| header_verdict(hv@) == Err::<(), ExofsError>(e)
            ||| (header_verdict(hv@) is Ok && hv@[5] > 2 && e == ExofsError::InvalidArgument)
        }
    }
}

/// The fields of a checked header.
#[derive(Clone, Copy)]
pub struct BlobHeaderInfo {
    pub blob_id: BlobId,
    pub original_size: u32,
    pub stored_size: u32,
    pub algo: CompressionType,
    pub epoch: u64,
}

impl BlobHeaderInfo {
    /// Bytes the blob takes on disk, in whole blocks.
    pub fn disk_size(&self) -> (r: u64)
        ensures
            r == round_up(64 + self.stored_size, 4096),
    {
        blob_total_disk_size(self.stored_size)
    }

    /// Where the next blob starts when this one is at `current`.
    pub fn next_offset(&self, current: DiskOffset) -> (r: ExofsResult<DiskOffset>)
        ensures
            current.0 + round_up(64 + self.stored_size, 4096) > u64::MAX ==> r == Err::<DiskOffset, ExofsError>(ExofsError::Overflow),
            current.0 + round_up(64 + self.stored_size, 4096) <= u64::MAX ==> r == Ok::<DiskOffset, ExofsError>(
                DiskOffset((current.0 + round_up(64 + self.stored_size, 4096)) as u64)),
    {
        let ds = self.disk_size();
        match current.0.checked_add(ds) {
            Some(n) => Ok(DiskOffset(n)),
            None => Err(ExofsError::Overflow),
        }
    }
}

/// One read of a batch.
#[derive(Clone, Copy)]
pub struct BlobReadRequest {
    pub index: usize,
    pub offset: DiskOffset,
    pub mode: BlobVerifyMode,
}

/// Outcome of one read of a batch.
pub struct BatchBlobReadResult {
    pub index: usize,
    pub result: ExofsResult<BlobReadResult>,
}

/// Reader of several blobs.
pub struct BatchBlobReader;

impl BatchBlobReader {
    /// Reads every request in order; one result per request.
    pub fn read_all<R>(requests: &[BlobReadRequest], read_fn: &R) -> (r: ExofsResult<Vec<BatchBlobReadResult>>)
        where
            R: Fn(DiskOffset, usize) -> ExofsResult<Vec<u8>>,
        requires
            forall|o: DiskOffset, n: usize| read_fn.requires((o, n)),
        ensures
            r matches Ok(out) && out@.len() == requests@.len() && forall|k: int| 0 <= k < out@.len() ==> {
                &&& (#[trigger] out@[k]).index == requests@[k].index
                &&& read_post(*read_fn, requests@[k].offset, requests@[k].mode, out@[k].result)
            },
    {
        let mut out: Vec<BatchBlobReadResult> = Vec::new();
        let mut i: usize = 0;
        while i < requests.len()
            invariant
                forall|o: DiskOffset, n: usize| read_fn.requires((o, n)),
                0 <= i <= requests@.len(),
                out@.len() == i,
                forall|k: int| 0 <= k < i ==> {
                    &&& (#[trigger] out@[k]).index == requests@[k].index
                    &&& read_post(*read_fn, requests@[k].offset, requests@[k].mode, out@[k].result)
                },
            decreases requests.len() - i,
        {
            let req = requests[i];
            let res = BlobReader::read_blob_with(req.offset, read_fn, req.mode);
            out.push(BatchBlobReadResult { index: req.index, result: res });
            i += 1;
        }
        Ok(out)
    }

    /// Reads the header at every offset, in order.
    pub fn scan_headers<R>(offsets: &[DiskOffset], read_fn: &R) -> (r: ExofsResult<Vec<(DiskOffset, ExofsResult<BlobHeaderInfo>)>>)
        where
            R: Fn(DiskOffset, usize) -> ExofsResult<Vec<u8>>,
        requires
            forall|o: DiskOffset, n: usize| read_fn.requires((o, n)),
        ensures
            r matches Ok(out) && out@.len() == offsets@.len() && forall|k: int| 0 <= k < out@.len() ==> {
                &&& (#[trigger] out@[k]).0 == offsets@[k]
                &&& header_post(*read_fn, offsets@[k], out@[k].1)
            },
    {
        let mut out: Vec<(DiskOffset, ExofsResult<BlobHeaderInfo>)> = Vec::new();
        let mut i: usize = 0;
        while i < offsets.len()
            invariant
                forall|o: DiskOffset, n: usize| read_fn.requires((o, n)),
                0 <= i <= offsets@.len(),
                out@.len() == i,
                forall|k: int| 0 <= k < i ==> {
                    &&& (#[trigger] out@[k]).0 == offsets@[k]
                    &&& header_post(*read_fn, offsets@[k], out@[k].1)
                },
            decreases offsets.len() - i,
        {
            let off = offsets[i];
            let h = BlobReader::read_header_with(off, read_fn);
            out.push((off, h));
            i += 1;
        }
        Ok(out)
    }
}

/// `a + b` clamped to `u64::MAX`.
pub open spec fn sat_add(a: int, b: int) -> u64 {
    if a + b > u64::MAX { u64::MAX } else { (a + b) as u64 }
}

/// Position and counters of a scanner.
pub struct BlobScannerView {
    pub start: u64,
    pub current: u64,
    pub end: u64,
    pub scanned: u64,
    pub errors: u64,
}

/// Walks the blobs of a zone one after the other.
pub struct BlobScanner {
    start_offset: DiskOffset,
    current_offset: DiskOffset,
    end_offset: DiskOffset,
    scanned: u64,
    errors: u64,
}

impl View for BlobScanner {
    type V = BlobScannerView;

    closed spec fn view(&self) -> BlobScannerView {
        BlobScannerView {
            start: self.start_offset.0,
            current: self.current_offset.0,
            end: self.end_offset.0,
            scanned: self.scanned,
            errors: self.errors,
        }
    }
}

impl BlobScanner {
    /// A scanner of the zone from `start` to `end`.
    pub fn new(start: DiskOffset, end: DiskOffset) -> (r: BlobScanner)
        ensures
            r@ == (BlobScannerView { start: start.0, current: start.0, end: end.0, scanned: 0, errors: 0 }),
    {
        BlobScanner { start_offset: start, current_offset: start, end_offset: end, scanned: 0, errors: 0 }
    }

    /// Reads the next header; a bad one counts as an error and the scan
    /// moves one block on. `None` once fewer than 64 bytes are left.
    pub fn next_header<R>(&mut self, read_fn: &R) -> (r: Option<ExofsResult<(DiskOffset, BlobHeaderInfo)>>)
        where
            R: Fn(DiskOffset, usize) -> ExofsResult<Vec<u8>>,
        requires
            forall|o: DiskOffset, n: usize| read_fn.requires((o, n)),
        ensures
            ({
                let o = old(self)@;
                &&& (o.current >= o.end || o.end - o.current < 64) ==> r is None && final(self)@ == o
                &&& !(o.current >= o.end || o.end - o.current < 64) ==> r is Some
                &&& r matches Some(Ok((off, info))) ==> {
                    &&& off == DiskOffset(o.current)
                    &&& header_post(*read_fn, off, Ok(info))
                    &&& o.current + round_up(64 + info.stored_size, 4096) <= u64::MAX
                    &&& final(self)@ == (BlobScannerView {
                        current: (o.current + round_up(64 + info.stored_size, 4096)) as u64,
                        scanned: sat_add(o.scanned as int, 1),
                        ..o
                    })
                }
                &&& r matches Some(Err(e)) ==> {
                    &&& final(self)@.scanned == o.scanned && final(self)@.end == o.end
                    &&& final(self)@.errors == sat_add(o.errors as int, 1)
                    &&& {
                        ||| (header_post(*read_fn, DiskOffset(o.current), Err(e))
                            && final(self)@.current == sat_add(o.current as int, 4096))
                        ||| (e == ExofsError::Overflow && final(self)@.current == o.current)
                    }
                }
            }),
    {
        if self.current_offset.0 >= self.end_offset.0 {
            return None;
        }
        let remaining = self.end_offset.0 - self.current_offset.0;
        if remaining < BLOB_HEADER_SIZE as u64 {
            return None;
        }
        let off = self.current_offset;
        match BlobReader::read_header_with(off, read_fn) {
            Ok(info) => {
                let next = match info.next_offset(off) {
                    Ok(n) => n,
                    Err(e) => {
                        self.errors = self.errors.saturating_add(1);
                        return Some(Err(e));
                    },
                };
                self.current_offset = next;
                self.scanned = self.scanned.saturating_add(1);
                Some(Ok((off, info)))
            },
            Err(e) => {
                self.errors = self.errors.saturating_add(1);
                self.current_offset = DiskOffset(self.current_offset.0.saturating_add(4096));
                Some(Err(e))
            },
        }
    }

    /// Reads the next whole blob under `mode`; a bad one counts as an error
    /// and the scan moves one block on.
    pub fn next_blob<R>(&mut self, read_fn: &R, mode: BlobVerifyMode) -> (r: Option<ExofsResult<(DiskOffset, BlobReadResult)>>)
        where
            R: Fn(DiskOffset, usize) -> ExofsResult<Vec<u8>>,
        requires
            forall|o: DiskOffset, n: usize| read_fn.requires((o, n)),
        ensures
            ({
                let o = old(self)@;
                &&& o.current >= o.end ==> r is None && final(self)@ == o
                &&& o.current < o.end ==> r is Some && final(self)@.current > o.current && final(self)@.end == o.end
                &&& r matches Some(Ok((off, res))) ==> {
                    &&& off == DiskOffset(o.current)
                    &&& read_post(*read_fn, off, mode, Ok(res))
                    &&& final(self)@ == (BlobScannerView {
                        current: sat_add(o.current as int, round_up(64 + res.stored_size, 4096)),
                        scanned: sat_add(o.scanned as int, 1),
                        ..o
                    })
                }
                &&& r matches Some(Err(e)) ==> {
                    &&& read_post(*read_fn, DiskOffset(o.current), mode, Err(e))
                    &&& final(self)@ == (BlobScannerView {
                        current: sat_add(o.current as int, 4096),
                        errors: sat_add(o.errors as int, 1),
                        ..o
                    })
                }
            }),
    {
        if self.current_offset.0 >= self.end_offset.0 {
            return None;
        }
        let off = self.current_offset;
        match BlobReader::read_blob_with(off, read_fn, mode) {
            Ok(res) => {
                let disk_size = blob_total_disk_size(res.stored_size);
                proof {
                    assert(round_up(64 + res.stored_size, 4096) >= 4096) by (nonlinear_arith)
                        requires res.stored_size >= 0;
                }
                self.current_offset = DiskOffset(off.0.saturating_add(disk_size));
                self.scanned = self.scanned.saturating_add(1);
                Some(Ok((off, res)))
            },
            Err(e) => {
                self.errors = self.errors.saturating_add(1);
                self.current_offset = DiskOffset(self.current_offset.0.saturating_add(4096));
                Some(Err(e))
            },
        }
    }

    /// Where the scan is.
    pub fn current_offset(&self) -> (r: DiskOffset)
        ensures
            r == DiskOffset(self@.current),
    {
        self.current_offset
    }

    /// Blobs read without error.
    pub fn scanned_count(&self) -> (r: u64)
        ensures
            r == self@.scanned,
    {
        self.scanned
    }

    /// Errors met.
    pub fn error_count(&self) -> (r: u64)
        ensures
            r == self@.errors,
    {
        self.errors
    }

    /// Progress of the scan in percent, from its start to its end: 0 before
    /// any blob, 100 once the end is reached.
    pub fn progress_pct(&self) -> (r: u64)
        ensures
            r == (if self@.current >= self@.end {
                100
            } else if self@.current <= self@.start {
                0
            } else {
                ((self@.current - self@.start) * 100 / (self@.end - self@.start)) as u64
            }),
    {
        let cur = self.current_offset.0;
        let start = self.start_offset.0;
        let end = self.end_offset.0;
        if cur >= end {
            return 100;
        }
        if cur <= start {
            return 0;
        }
        let done: u128 = (cur - start) as u128;
        let span: u128 = (end - start) as u128;
        proof {
            assert((done as int) * 100 / (span as int) < 100) by (nonlinear_arith)
                requires done < span, span > 0;
        }
        (done * 100 / span) as u64
    }
}

/// Outcome of an integrity scan.
pub struct IntegrityReport {
    pub checked: u64,
    pub ok: u64,
    pub bad_magic: u64,
    pub bad_header_checksum: u64,
    pub bad_blob_id: u64,
    pub decompress_errors: u64,
    pub read_errors: u64,
}

impl Default for IntegrityReport {
    fn default() -> (r: IntegrityReport)
        ensures
            r == (IntegrityReport {
                checked: 0,
                ok: 0,
                bad_magic: 0,
                bad_header_checksum: 0,
                bad_blob_id: 0,
                decompress_errors: 0,
                read_errors: 0,
            }),
    {
        IntegrityReport { checked: 0, ok: 0, bad_magic: 0, bad_header_checksum: 0, bad_blob_id: 0, decompress_errors: 0, read_errors: 0 }
    }
}

impl IntegrityReport {
    /// Share of the checked blobs that were good, in percent (100 when none
    /// was checked).
    pub fn success_rate_pct(&self) -> (r: u64)
        ensures
            self.checked == 0 ==> r == 100,
            self.checked > 0 ==> r == (if self.ok * 100 > u64::MAX { u64::MAX as int } else { self.ok * 100 }) / (self.checked as int),
    {
        if self.checked == 0 {
            return 100;
        }
        crate::types::mul_sat(self.ok, 100) / self.checked
    }

    /// Errors of every kind, clamped to `u64::MAX`.
    pub fn total_errors(&self) -> (r: u64)
        ensures
            r == sat_add(sat_add(sat_add(sat_add(self.bad_magic as int, self.bad_header_checksum as int) as int,
                self.bad_blob_id as int) as int, self.decompress_errors as int) as int, self.read_errors as int),
    {
        self.bad_magic.saturating_add(self.bad_header_checksum).saturating_add(self.bad_blob_id).saturating_add(
            self.decompress_errors,
        ).saturating_add(self.read_errors)
    }
}

/// One blob met by a scan: where it was read, where the scan went on, and
/// the error met there, if any.
pub struct ScanStep {
    pub at: u64,
    pub next: u64,
    pub err: Option<ExofsError>,
}

/// `s` is what reading a whole blob at `s.at` through `read_fn` gives: a
/// good blob moves the scan past it, a bad one moves it one block on.
pub open spec fn scan_step<R>(read_fn: R, s: ScanStep) -> bool
    where
        R: Fn(DiskOffset, usize) -> ExofsResult<Vec<u8>>,
{
    match s.err {
        None => exists|res: BlobReadResult| #[trigger] read_post(read_fn, DiskOffset(s.at), BlobVerifyMode::Full, Ok(res))
            && s.next == sat_add(s.at as int, round_up(64 + res.stored_size, 4096)),
        Some(e) => read_post(read_fn, DiskOffset(s.at), BlobVerifyMode::Full, Err(e)) && s.next == sat_add(s.at as int, 4096),
    }
}

/// `t` is the scan of the zone from `start` to `end`: one step after the
/// other from `start`, each inside the zone, until the zone is passed.
pub open spec fn scan_trace<R>(read_fn: R, start: u64, end: u64, t: Seq<ScanStep>) -> bool
    where
        R: Fn(DiskOffset, usize) -> ExofsResult<Vec<u8>>,
{
    &&& forall|i: int| 0 <= i < t.len() ==> scan_step(read_fn, #[trigger] t[i]) && t[i].at < end
    &&& forall|i: int| 1 <= i < t.len() ==> (#[trigger] t[i]).at == t[i - 1].next
    &&& t.len() == 0 ==> start >= end
    &&& t.len() > 0 ==> t[0].at == start && t.last().next >= end
}

/// The report of a scan made of the steps `t`.
pub open spec fn tally(t: Seq<ScanStep>) -> IntegrityReport
    decreases t.len(),
{
    if t.len() == 0 {
        IntegrityReport { checked: 0, ok: 0, bad_magic: 0, bad_header_checksum: 0, bad_blob_id: 0, decompress_errors: 0, read_errors: 0 }
    } else {
        let p = tally(t.drop_last());
        let e = t.last().err;
        IntegrityReport {
            checked: (p.checked + 1) as u64,
            ok: if e is None { (p.ok + 1) as u64 } else { p.ok },
            bad_magic: if e == Some(ExofsError::BadMagic) { (p.bad_magic + 1) as u64 } else { p.bad_magic },
            bad_header_checksum: 0,
            bad_blob_id: if e == Some(ExofsError::ChecksumMismatch) { (p.bad_blob_id + 1) as u64 } else { p.bad_blob_id },
            decompress_errors: if e == Some(ExofsError::DecompressError) { (p.decompress_errors + 1) as u64 } else { p.decompress_errors },
            read_errors: if e is Some && e != Some(ExofsError::BadMagic) && e != Some(ExofsError::ChecksumMismatch)
                && e != Some(ExofsError::DecompressError) { (p.read_errors + 1) as u64 } else { p.read_errors },
        }
    }
}

/// Reads every blob of the zone from `start` to `end` in full and counts the
/// outcomes: a bad identifier counts under `bad_blob_id`, errors other than a
/// bad magic, a bad identifier or a decoding failure under `read_errors`.
pub fn verify_blob_range<R>(start: DiskOffset, end: DiskOffset, read_fn: &R) -> (r: IntegrityReport)
    where
        R: Fn(DiskOffset, usize) -> ExofsResult<Vec<u8>>,
    requires
        forall|o: DiskOffset, n: usize| read_fn.requires((o, n)),
    ensures
        r.bad_header_checksum == 0,
        r.checked == r.ok + r.bad_magic + r.bad_blob_id + r.decompress_errors + r.read_errors,
        start.0 >= end.0 ==> r.checked == 0,
        exists|t: Seq<ScanStep>| #[trigger] scan_trace(*read_fn, start.0, end.0, t) && r == tally(t),
{
    let mut report = IntegrityReport::default();
    let mut scanner = BlobScanner::new(start, end);
    let ghost mut t: Seq<ScanStep> = Seq::empty();
    loop
        invariant
            forall|o: DiskOffset, n: usize| read_fn.requires((o, n)),
            scanner@.end == end.0,
            scanner@.current >= start.0,
            report.checked <= scanner@.current - start.0,
            report.bad_header_checksum == 0,
            report.checked == report.ok + report.bad_magic + report.bad_blob_id + report.decompress_errors + report.read_errors,
            start.0 >= end.0 ==> report.checked == 0,
            report == tally(t),
            forall|i: int| 0 <= i < t.len() ==> scan_step(*read_fn, #[trigger] t[i]) && t[i].at < end.0,
            forall|i: int| 1 <= i < t.len() ==> (#[trigger] t[i]).at == t[i - 1].next,
            t.len() == 0 ==> scanner@.current == start.0,
            t.len() > 0 ==> t[0].at == start.0 && t.last().next == scanner@.current,
        ensures
            scanner@.current >= end.0,
            report == tally(t),
            forall|i: int| 0 <= i < t.len() ==> scan_step(*read_fn, #[trigger] t[i]) && t[i].at < end.0,
            forall|i: int| 1 <= i < t.len() ==> (#[trigger] t[i]).at == t[i - 1].next,
            t.len() == 0 ==> scanner@.current == start.0,
            t.len() > 0 ==> t[0].at == start.0 && t.last().next == scanner@.current,
            report.bad_header_checksum == 0,
            report.checked == report.ok + report.bad_magic + report.bad_blob_id + report.decompress_errors + report.read_errors,
            start.0 >= end.0 ==> report.checked == 0,
        decreases (if end.0 > scanner@.current { end.0 - scanner@.current } else { 0 }),
    {
        let ghost at = scanner@.current;
        let next = scanner.next_blob(read_fn, BlobVerifyMode::Full);
        match next {
            None => {
                break;
            },
            Some(r) => {
                let ghost step = ScanStep {
                    at,
                    next: scanner@.current,
                    err: match r {
                        Ok(_) => None,
                        Err(e) => Some(e),
                    },
                };
                proof {
                    if r is Ok {
                        let res = r->Ok_0.1;
                        assert(r->Ok_0.0 == DiskOffset(at));
                        assert(read_post(*read_fn, DiskOffset(at), BlobVerifyMode::Full, Ok(res)));
                        assert(step.next == sat_add(at as int, round_up(64 + res.stored_size, 4096)));
                        assert(step.err is None);
                        assert(read_post(*read_fn, DiskOffset(step.at), BlobVerifyMode::Full, Ok(res))
                            && step.next == sat_add(step.at as int, round_up(64 + res.stored_size, 4096)));
                        assert(exists|res2: BlobReadResult| #[trigger] read_post(*read_fn, DiskOffset(step.at), BlobVerifyMode::Full, Ok(res2))
                            && step.next == sat_add(step.at as int, round_up(64 + res2.stored_size, 4096)));
                        assert(scan_step(*read_fn, step));
                    } else {
                        assert(step.err == Some(r->Err_0));
                        assert(read_post(*read_fn, DiskOffset(at), BlobVerifyMode::Full, Err(r->Err_0)));
                        assert(step.next == sat_add(at as int, 4096));
                        assert(scan_step(*read_fn, step));
                    }
                    assert(scan_step(*read_fn, step));
                    let t0 = t;
                    t = t.push(step);
                    assert(t.drop_last() =~= t0);
                }
                report.checked = report.checked + 1;
                match r {
                    Ok(_) => {
                        report.ok = report.ok + 1;
                    },
                    Err(ExofsError::BadMagic) => {
                        report.bad_magic = report.bad_magic + 1;
                    },
                    Err(ExofsError::ChecksumMismatch) => {
                        report.bad_blob_id = report.bad_blob_id + 1;
                    },
                    Err(ExofsError::DecompressError) => {
                        report.decompress_errors = report.decompress_errors + 1;
                    },
                    Err(_) => {
                        report.read_errors = report.read_errors + 1;
                    },
                }
            },
        }
    }
    proof {
        assert(scan_trace(*read_fn, start.0, end.0, t));
    }
    report
}

/// A blob as the writer puts it on disk reads back as its data: under every
/// mode its header passes the checks and is read back field for field, and
/// its payload decodes to the data, whose identifier matches.
pub proof fn lemma_blob_roundtrip(h: BlobHeaderDisk, data: Seq<u8>, epoch: u64, mode: BlobVerifyMode, h2: BlobHeaderDisk)
    requires
        0 < data.len() <= BLOB_MAX_SIZE,
        fresh_header(h, data, epoch),
        reads_as(h2, image_of(h)),
    ensures
        header_stage(image_of(h), mode) == Ok::<(), ExofsError>(()),
        h2.magic == h.magic && h2.version == h.version && h2.compression_algo == h.compression_algo,
        h2.flags == h.flags && h2._reserved0 == h._reserved0 && h2.epoch == h.epoch,
        h2.original_size == h.original_size && h2.stored_size == h.stored_size,
        h2.blob_id@ == h.blob_id@ && h2.header_checksum@ == h.header_checksum@,
        payload_stage(h2, data, mode) == Ok::<Seq<u8>, ExofsError>(data),
{
    let img = image_of(h);
    assert(img.len() == 64);
    assert(img.subrange(0, 4) =~= le32(h.magic));
    assert(img.subrange(8, 12) =~= le32(h.original_size));
    assert(img.subrange(12, 16) =~= le32(h.stored_size));
    assert(img.subrange(16, 24) =~= le64(h.epoch));
    assert(img.subrange(24, 56) =~= h.blob_id@);
    assert(img.subrange(56, 60) =~= h.header_checksum@);
    assert(img.subrange(0, 56) =~= prefix_of(h));
    lemma_get32_at(img, 0, h.magic);
    lemma_get32_at(img, 8, h.original_size);
    lemma_get32_at(img, 12, h.stored_size);
    lemma_get64_at(img, 16, h.epoch);
    assert(img[4] == h.version && img[5] == h.compression_algo && img[6] == h.flags && img[7] == h._reserved0);
    assert(header_verdict(img) == Ok::<(), ExofsError>(()));
    assert(h2.flags == 3u8);
    assert(3u8 & 4u8 == 0) by (bit_vector);
    assert(data.subrange(0, data.len() as int) =~= data);
}

} // verus!



