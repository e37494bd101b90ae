//! Writing a blob: identifier over the raw bytes, deduplication, the
//! choice of compression, a 64-byte sealed header and the payload.
//!
//! Payloads are stored in clear: the payload cipher (XChaCha20 under a key
//! derived from the blob identifier) and its key derivation are not part of
//! this library, so no writer here sets the encrypted flag, and the reader
//! refuses a blob that carries it with `InvalidState`.
use vstd::prelude::*;
use crate::types::{BlobId, DiskOffset, EpochId, ExofsError, ExofsResult, mul_sat};
use crate::hash::{blake3_spec, blake3_hash, blob_id_spec, compute_blob_id};
use crate::bytes::{le32, le64, get32, get64, push_u32, push_u64, push_bytes, lemma_le32, lemma_le64};
use crate::storage::layout::{align_up, round_up};
use crate::storage::compression_choice::{choose_compression, choice_spec, entropy_spec, CompressionType, ContentHint};
use crate::storage::compression_writer::{CompressWriter, MAX_COMPRESS_INPUT};

verus! {

/// Magic of a blob header: "EXBL".
pub const BLOB_HEADER_MAGIC: u32 = 0x4558_424C;
/// Size of a blob header on disk.
pub const BLOB_HEADER_SIZE: usize = 64;
/// Format version written in new headers.
pub const BLOB_FORMAT_VERSION: u8 = 1;
/// Below this size the automatic choice does not compress.
pub const COMPRESS_MIN_BYTES: usize = 256;
/// Largest blob accepted (512 MiB).
pub const BLOB_MAX_SIZE: usize = 536870912;
/// Flags of a new header: checksum present, deduplication possible.
pub const BLOB_FLAGS_DEFAULT: u8 = 3;

/// Blob header as stored on disk (64 bytes, little-endian).
#[derive(Clone, Copy)]
pub struct BlobHeaderDisk {
    pub magic: u32,
    pub version: u8,
    pub compression_algo: u8,
    pub flags: u8,
    pub _reserved0: u8,
    pub original_size: u32,
    pub stored_size: u32,
    pub epoch: u64,
    pub blob_id: [u8; 32],
    pub header_checksum: [u8; 4],
}

/// The first 56 bytes of the header: every field before the checksum.
pub open spec fn prefix_of(h: BlobHeaderDisk) -> Seq<u8> {
    le32(h.magic) + seq![h.version, h.compression_algo, h.flags, h._reserved0] + le32(h.original_size)
        + le32(h.stored_size) + le64(h.epoch) + h.blob_id@
}

/// Header checksum of a 56-byte prefix: the first four bytes of the Blake3
/// digest of the prefix followed by four zero bytes (the checksum field not
/// yet filled in).
pub open spec fn checksum_of(prefix: Seq<u8>) -> Seq<u8> {
    blake3_spec(prefix + seq![0u8, 0u8, 0u8, 0u8]).subrange(0, 4)
}

/// The 64 bytes of a header on disk; the last four are padding.
pub open spec fn image_of(h: BlobHeaderDisk) -> Seq<u8> {
    prefix_of(h) + h.header_checksum@ + seq![0u8, 0u8, 0u8, 0u8]
}

/// The checksum field matches the other fields.
pub open spec fn sealed(h: BlobHeaderDisk) -> bool {
    h.header_checksum@ == checksum_of(prefix_of(h))
}

/// The header that a write of `data` at `epoch` puts on disk.
pub open spec fn fresh_header(h: BlobHeaderDisk, data: Seq<u8>, epoch: u64) -> bool {
    &&& h.magic == BLOB_HEADER_MAGIC
    &&& h.version == BLOB_FORMAT_VERSION
    &&& h.compression_algo == 0
    &&& h.flags == BLOB_FLAGS_DEFAULT
    &&& h._reserved0 == 0
    &&& h.original_size == data.len()
    &&& h.stored_size == data.len()
    &&& h.epoch == epoch
    &&& h.blob_id@ == blob_id_spec(data)
    &&& sealed(h)
}

/// `raw` holds the fields of `h` at their places.
pub open spec fn reads_as(h: BlobHeaderDisk, raw: Seq<u8>) -> bool {
    &&& raw.len() >= 60
    &&& h.magic == get32(raw, 0)
    &&& h.version == raw[4]
    &&& h.compression_algo == raw[5]
    &&& h.flags == raw[6]
    &&& h._reserved0 == raw[7]
    &&& h.original_size == get32(raw, 8)
    &&& h.stored_size == get32(raw, 12)
    &&& h.epoch == get64(raw, 16)
    &&& h.blob_id@ == raw.subrange(24, 56)
    &&& h.header_checksum@ == raw.subrange(56, 60)
}

/// What checking a raw header gives: too short, bad magic, bad checksum, or
/// good.
pub open spec fn header_verdict(raw: Seq<u8>) -> ExofsResult<()> {
    if raw.len() < 64 {
        Err(ExofsError::InvalidSize)
    } else if get32(raw, 0) != BLOB_HEADER_MAGIC {
        Err(ExofsError::BadMagic)
    } else if raw.subrange(56, 60) != checksum_of(raw.subrange(0, 56)) {
        Err(ExofsError::ChecksumMismatch)
    } else {
        Ok(())
    }
}

/// The 32 bytes of `b` from `at`.
fn id_at(b: &[u8], at: usize) -> (r: [u8; 32])
    requires
        at + 32 <= b@.len(),
    ensures
        r@ == b@.subrange(at as int, at + 32),
{
    let r: [u8; 32] = [
        b[at], b[at + 1], b[at + 2], b[at + 3], b[at + 4], b[at + 5], b[at + 6], b[at + 7],
        b[at + 8], b[at + 9], b[at + 10], b[at + 11], b[at + 12], b[at + 13], b[at + 14], b[at + 15],
        b[at + 16], b[at + 17], b[at + 18], b[at + 19], b[at + 20], b[at + 21], b[at + 22], b[at + 23],
        b[at + 24], b[at + 25], b[at + 26], b[at + 27], b[at + 28], b[at + 29], b[at + 30], b[at + 31],
    ];
    proof {
        assert(r@ =~= b@.subrange(at as int, at + 32));
    }
    r
}

/// The checksum of the first 56 bytes of `b`.
fn checksum_of_prefix(b: &[u8]) -> (r: [u8; 4])
    requires
        b@.len() >= 56,
    ensures
        r@ == checksum_of(b@.subrange(0, 56)),
{
    let mut raw: Vec<u8> = Vec::new();
    let mut i: usize = 0;
    while i < 56
        invariant
            0 <= i <= 56,
            b@.len() >= 56,
            raw@ == b@.subrange(0, i as int),
        decreases 56 - i,
    {
        raw.push(b[i]);
        proof {
            assert(raw@ =~= b@.subrange(0, i + 1));
        }
        i += 1;
    }
    raw.push(0u8);
    raw.push(0u8);
    raw.push(0u8);
    raw.push(0u8);
    proof {
        assert(raw@ =~= b@.subrange(0, 56) + seq![0u8, 0u8, 0u8, 0u8]);
    }
    let h = blake3_hash(raw.as_slice());
    let r: [u8; 4] = [h[0], h[1], h[2], h[3]];
    proof {
        assert(r@ =~= h@.subrange(0, 4));
    }
    r
}

impl BlobHeaderDisk {
    /// True iff the checksum field matches the other fields.
    pub fn verify_header_checksum(&self) -> (r: bool)
        ensures
            r == sealed(*self),
    {
        let raw = self.as_bytes();
        let c = checksum_of_prefix(raw.as_slice());
        proof {
            assert(raw@.subrange(0, 56) =~= prefix_of(*self));
        }
        let ok = c[0] == self.header_checksum[0] && c[1] == self.header_checksum[1] && c[2] == self.header_checksum[2]
            && c[3] == self.header_checksum[3];
        proof {
            if ok {
                assert(c@ =~= self.header_checksum@);
            }
        }
        ok
    }

    /// The checksum of 60 header bytes: the first four bytes of their digest.
    pub fn compute_header_checksum(raw60: &[u8; 60]) -> (r: [u8; 4])
        ensures
            r@ == blake3_spec(raw60@).subrange(0, 4),
    {
        let h = blake3_hash(raw60.as_slice());
        let r: [u8; 4] = [h[0], h[1], h[2], h[3]];
        proof {
            assert(r@ =~= h@.subrange(0, 4));
        }
        r
    }

    /// The 64 bytes of the header.
    fn as_bytes(&self) -> (r: Vec<u8>)
        ensures
            r@ == image_of(*self),
    {
        let mut v: Vec<u8> = Vec::new();
        push_u32(&mut v, self.magic);
        v.push(self.version);
        v.push(self.compression_algo);
        v.push(self.flags);
        v.push(self._reserved0);
        push_u32(&mut v, self.original_size);
        push_u32(&mut v, self.stored_size);
        push_u64(&mut v, self.epoch);
        push_bytes(&mut v, self.blob_id.as_slice());
        push_bytes(&mut v, self.header_checksum.as_slice());
        v.push(0u8);
        v.push(0u8);
        v.push(0u8);
        v.push(0u8);
        proof {
            assert(v@ =~= image_of(*self));
        }
        v
    }
}

/// Checks a raw header: length, magic, then checksum; returns its fields.
pub fn verify_blob_header(raw: &[u8]) -> (r: ExofsResult<BlobHeaderDisk>)
    ensures
        header_verdict(raw@) matches Err(e) ==> r == Err::<BlobHeaderDisk, ExofsError>(e),
        header_verdict(raw@) is Ok ==> (r matches Ok(h) && reads_as(h, raw@)),
{
    if raw.len() < BLOB_HEADER_SIZE {
        return Err(ExofsError::InvalidSize);
    }
    let h = parse_header(raw);
    if h.magic != BLOB_HEADER_MAGIC {
        return Err(ExofsError::BadMagic);
    }
    let c = checksum_of_prefix(raw);
    let ok = c[0] == raw[56] && c[1] == raw[57] && c[2] == raw[58] && c[3] == raw[59];
    if !ok {
        proof {
            if raw@.subrange(56, 60) == checksum_of(raw@.subrange(0, 56)) {
                assert(raw@.subrange(56, 60)[0] == c@[0]);
                assert(raw@.subrange(56, 60)[1] == c@[1]);
                assert(raw@.subrange(56, 60)[2] == c@[2]);
                assert(raw@.subrange(56, 60)[3] == c@[3]);
            }
        }
        return Err(ExofsError::ChecksumMismatch);
    }
    proof {
        assert(raw@.subrange(56, 60) =~= c@);
    }
    Ok(h)
}

/// The fields of a header read from the first 60 bytes of `raw`, unchecked.
pub fn parse_header(raw: &[u8]) -> (r: BlobHeaderDisk)
    requires
        raw@.len() >= 60,
    ensures
        reads_as(r, raw@),
{
    let checksum: [u8; 4] = [raw[56], raw[57], raw[58], raw[59]];
    proof {
        assert(checksum@ =~= raw@.subrange(56, 60));
    }
    BlobHeaderDisk {
        magic: crate::bytes::read_u32(raw, 0),
        version: raw[4],
        compression_algo: raw[5],
        flags: raw[6],
        _reserved0: raw[7],
        original_size: crate::bytes::read_u32(raw, 8),
        stored_size: crate::bytes::read_u32(raw, 12),
        epoch: crate::bytes::read_u64(raw, 16),
        blob_id: id_at(raw, 24),
        header_checksum: checksum,
    }
}

/// Settings of a blob write.
#[derive(Clone, Copy)]
pub struct BlobWriterConfig {
    /// Algorithm to use; `None` lets the writer choose.
    pub forced_algo: Option<CompressionType>,
    /// Kind of content, for the automatic choice.
    pub hint: ContentHint,
    /// Look the blob up before writing it.
    pub dedup_enabled: bool,
    /// Read the blob back after writing it.
    pub verify_after_write: bool,
    /// Epoch recorded in the header.
    pub epoch: EpochId,
}

impl Default for BlobWriterConfig {
    fn default() -> (r: BlobWriterConfig)
        ensures
            r == (BlobWriterConfig {
                forced_algo: None,
                hint: ContentHint::Unknown,
                dedup_enabled: true,
                verify_after_write: false,
                epoch: EpochId(0),
            }),
    {
        BlobWriterConfig {
            forced_algo: None,
            hint: ContentHint::Unknown,
            dedup_enabled: true,
            verify_after_write: false,
            epoch: EpochId(0),
        }
    }
}

impl BlobWriterConfig {
    /// The default settings at `epoch`.
    pub fn new(epoch: EpochId) -> (r: BlobWriterConfig)
        ensures
            r == (BlobWriterConfig {
                forced_algo: None,
                hint: ContentHint::Unknown,
                dedup_enabled: true,
                verify_after_write: false,
                epoch,
            }),
    {
        BlobWriterConfig { epoch, ..BlobWriterConfig::default() }
    }

    /// The same settings with `algo` forced.
    pub fn with_algo(self, algo: CompressionType) -> (r: BlobWriterConfig)
        ensures
            r == (BlobWriterConfig { forced_algo: Some(algo), ..self }),
    {
        BlobWriterConfig { forced_algo: Some(algo), ..self }
    }

    /// The same settings with `hint`.
    pub fn with_hint(self, hint: ContentHint) -> (r: BlobWriterConfig)
        ensures
            r == (BlobWriterConfig { hint, ..self }),
    {
        BlobWriterConfig { hint, ..self }
    }

    /// The same settings without deduplication.
    pub fn no_dedup(self) -> (r: BlobWriterConfig)
        ensures
            r == (BlobWriterConfig { dedup_enabled: false, ..self }),
    {
        BlobWriterConfig { dedup_enabled: false, ..self }
    }

    /// The same settings with a read-back after the write.
    pub fn verify(self) -> (r: BlobWriterConfig)
        ensures
            r == (BlobWriterConfig { verify_after_write: true, ..self }),
    {
        BlobWriterConfig { verify_after_write: true, ..self }
    }
}

/// What a blob write did.
#[derive(Clone, Copy)]
pub struct BlobWriteResult {
    pub blob_id: BlobId,
    pub offset: DiskOffset,
    /// Bytes the blob takes on disk (header and payload, whole blocks).
    pub disk_size: u64,
    pub original_size: u64,
    pub stored_size: u64,
    pub algo: CompressionType,
    /// The blob was already on disk.
    pub dedup_hit: bool,
    pub epoch: EpochId,
    pub blocks_used: u64,
}

impl BlobWriteResult {
    /// Share of the original size saved by the stored form, in percent.
    pub fn storage_efficiency_pct(&self) -> (r: u64)
        ensures
            self.original_size == 0 ==> r == 0,
            self.original_size > 0 ==> {
                let prod = if self.stored_size * 100 > u64::MAX { u64::MAX as int } else { self.stored_size * 100 };
                let ratio = prod / (self.original_size as int);
                r == (if ratio > 100 { 0 } else { 100 - ratio })
            },
    {
        if self.original_size == 0 {
            return 0;
        }
        let ratio = mul_sat(self.stored_size, 100) / self.original_size;
        100u64.saturating_sub(ratio)
    }
}

/// Counters of blob writes.
pub struct BlobWriterStats {
    pub total_writes: u64,
    pub total_bytes_raw: u64,
    pub total_bytes_stored: u64,
    pub dedup_hits: u64,
    pub compress_ops: u64,
    pub write_errors: u64,
    pub header_writes: u64,
}

/// A copy of the counters of blob writes.
#[derive(Clone, Copy)]
pub struct BlobWriterStatsSnapshot {
    pub total_writes: u64,
    pub total_bytes_raw: u64,
    pub total_bytes_stored: u64,
    pub dedup_hits: u64,
    pub compress_ops: u64,
    pub write_errors: u64,
    pub header_writes: u64,
}

impl BlobWriterStats {
    /// All counters zero.
    pub fn new() -> (r: BlobWriterStats)
        ensures
            r == (BlobWriterStats {
                total_writes: 0,
                total_bytes_raw: 0,
                total_bytes_stored: 0,
                dedup_hits: 0,
                compress_ops: 0,
                write_errors: 0,
                header_writes: 0,
            }),
    {
        BlobWriterStats {
            total_writes: 0,
            total_bytes_raw: 0,
            total_bytes_stored: 0,
            dedup_hits: 0,
            compress_ops: 0,
            write_errors: 0,
            header_writes: 0,
        }
    }

    /// A copy of the counters.
    pub fn snapshot(&self) -> (r: BlobWriterStatsSnapshot)
        ensures
            r == (BlobWriterStatsSnapshot {
                total_writes: self.total_writes,
                total_bytes_raw: self.total_bytes_raw,
                total_bytes_stored: self.total_bytes_stored,
                dedup_hits: self.dedup_hits,
                compress_ops: self.compress_ops,
                write_errors: self.write_errors,
                header_writes: self.header_writes,
            }),
    {
        BlobWriterStatsSnapshot {
            total_writes: self.total_writes,
            total_bytes_raw: self.total_bytes_raw,
            total_bytes_stored: self.total_bytes_stored,
            dedup_hits: self.dedup_hits,
            compress_ops: self.compress_ops,
            write_errors: self.write_errors,
            header_writes: self.header_writes,
        }
    }
}

/// Blocks taken by a blob of `len` raw bytes stored as they are.
pub open spec fn blob_blocks(len: int) -> int {
    round_up(64 + len, 4096) / 4096
}

/// The algorithm the settings ask for on `data`.
pub open spec fn chosen_algo(data: Seq<u8>, c: BlobWriterConfig) -> CompressionType {
    match c.forced_algo {
        Some(a) => a,
        None => if data.len() < COMPRESS_MIN_BYTES {
            CompressionType::Uncompressed
        } else {
            choice_spec(data.len() as u64, c.hint, entropy_spec(data))
        },
    }
}

/// `write_fn` accepted `bytes` at `off` and reported `n` bytes written.
pub open spec fn wrote_at<W>(write_fn: W, off: DiskOffset, bytes: Seq<u8>, n: usize) -> bool
    where
        W: Fn(DiskOffset, &[u8]) -> ExofsResult<usize>,
{
    exists|b: &[u8]| b@ == bytes && #[trigger] call_ensures(write_fn, (off, b), Ok::<usize, ExofsError>(n))
}

/// What any write of `data` with settings `c` gives, whatever the callbacks did.
pub open spec fn blob_write_basic(data: Seq<u8>, c: BlobWriterConfig, r: ExofsResult<BlobWriteResult>) -> bool {
    &&& data.len() == 0 ==> r == Err::<BlobWriteResult, ExofsError>(ExofsError::InvalidArgument)
    &&& data.len() > BLOB_MAX_SIZE ==> r == Err::<BlobWriteResult, ExofsError>(ExofsError::InvalidSize)
    &&& r matches Ok(res) ==> {
        &&& 0 < data.len() <= BLOB_MAX_SIZE
        &&& res.blob_id.0@ == blob_id_spec(data)
        &&& res.original_size == data.len()
        &&& res.stored_size == data.len()
        &&& res.algo == CompressionType::Uncompressed
        &&& res.epoch == c.epoch
        &&& res.blocks_used == blob_blocks(data.len() as int)
        &&& res.disk_size == res.blocks_used * 4096
        &&& res.dedup_hit ==> c.dedup_enabled
        &&& !res.dedup_hit ==> chosen_algo(data, c) == CompressionType::Uncompressed || data.len() <= MAX_COMPRESS_INPUT
    }
}

/// The payload of a write, and what was done to it.
struct WriteContext {
    original_size: u32,
    stored_size: u32,
    algo: CompressionType,
    payload: Vec<u8>,
}

/// Writer of blobs.
pub struct BlobWriter;

impl BlobWriter {
    /// Writes `data` as a blob: computes its identifier over the raw bytes,
    /// returns the existing copy when deduplication finds one, else asks
    /// `alloc_fn` for the blocks and writes the header then the payload.
    pub fn write_blob<A, W, D>(data: &[u8], config: &BlobWriterConfig, alloc_fn: A, write_fn: W, dedup_check: D) -> (r: ExofsResult<BlobWriteResult>)
        where
            A: Fn(u64) -> ExofsResult<DiskOffset>,
            W: Fn(DiskOffset, &[u8]) -> ExofsResult<usize>,
            D: FnOnce(&BlobId) -> Option<DiskOffset>,
        requires
            forall|n: u64| alloc_fn.requires((n,)),
            forall|o: DiskOffset, b: &[u8]| write_fn.requires((o, b)),
            forall|id: &BlobId| dedup_check.requires((id,)),
        ensures
            blob_write_basic(data@, *config, r),
            r matches Ok(res) ==> (res.dedup_hit ==> call_ensures(dedup_check, (&res.blob_id,), Some(res.offset))),
            r matches Ok(res) ==> (!res.dedup_hit ==> Self::stored(data@, *config, alloc_fn, write_fn, res)),
            r matches Ok(res) ==> (config.dedup_enabled && !res.dedup_hit
                ==> call_ensures(dedup_check, (&res.blob_id,), None::<DiskOffset>)),
            0 < data@.len() <= BLOB_MAX_SIZE && chosen_algo(data@, *config) != CompressionType::Uncompressed
                && data@.len() > MAX_COMPRESS_INPUT && !config.dedup_enabled
                ==> r == Err::<BlobWriteResult, ExofsError>(ExofsError::InvalidSize),
            0 < data@.len() <= BLOB_MAX_SIZE
                && (chosen_algo(data@, *config) == CompressionType::Uncompressed || data@.len() <= MAX_COMPRESS_INPUT)
                && (forall|n: u64, a: ExofsResult<DiskOffset>| #[trigger] call_ensures(alloc_fn, (n,), a)
                    ==> (a matches Ok(d) && d.0 + 64 <= u64::MAX))
                && (forall|o: DiskOffset, b: &[u8], w: ExofsResult<usize>| #[trigger] call_ensures(write_fn, (o, b), w)
                    ==> w == Ok::<usize, ExofsError>(b@.len() as usize))
                ==> r is Ok,
    {
        if data.len() == 0 {
            return Err(ExofsError::InvalidArgument);
        }
        if data.len() > BLOB_MAX_SIZE {
            return Err(ExofsError::InvalidSize);
        }
        let blob_id = compute_blob_id(data);
        if config.dedup_enabled {
            if let Some(existing) = dedup_check(&blob_id) {
                return Ok(Self::dedup_result(data, config, blob_id, existing));
            }
        }
        Self::write_new(data, config, blob_id, &alloc_fn, &write_fn)
    }

    /// A new blob of `data` was written for `res`: `alloc_fn` gave its offset,
    /// and `write_fn` took the header and then the payload.
    pub open spec fn stored<A, W>(data: Seq<u8>, c: BlobWriterConfig, alloc_fn: A, write_fn: W, res: BlobWriteResult) -> bool
        where
            A: Fn(u64) -> ExofsResult<DiskOffset>,
            W: Fn(DiskOffset, &[u8]) -> ExofsResult<usize>,
    {
        &&& call_ensures(alloc_fn, (res.blocks_used,), Ok::<DiskOffset, ExofsError>(res.offset))
        &&& res.offset.0 + 64 <= u64::MAX
        &&& exists|h: BlobHeaderDisk| #[trigger] fresh_header(h, data, c.epoch.0) && wrote_at(write_fn, res.offset, image_of(h), 64)
        &&& wrote_at(write_fn, DiskOffset((res.offset.0 + 64) as u64), data, data.len() as usize)
    }

    /// The result of a write that found `data` already at `existing`.
    fn dedup_result(data: &[u8], config: &BlobWriterConfig, blob_id: BlobId, existing: DiskOffset) -> (r: BlobWriteResult)
        requires
            0 < data@.len() <= BLOB_MAX_SIZE,
            blob_id.0@ == blob_id_spec(data@),
        ensures
            blob_write_basic(data@, *config, Ok(r)) || !config.dedup_enabled,
            r.dedup_hit && r.offset == existing && r.blob_id == blob_id,
    {
        let n_blocks = Self::size_to_blocks((BLOB_HEADER_SIZE + data.len()) as u64);
        BlobWriteResult {
            blob_id,
            offset: existing,
            disk_size: mul_sat(n_blocks, 4096),
            original_size: data.len() as u64,
            stored_size: data.len() as u64,
            algo: CompressionType::Uncompressed,
            dedup_hit: true,
            epoch: config.epoch,
            blocks_used: n_blocks,
        }
    }

    /// Chooses the stored form of `data`: compressed only when that is shorter.
    fn compress_data(data: &[u8], config: &BlobWriterConfig) -> (r: ExofsResult<WriteContext>)
        requires
            0 < data@.len() <= BLOB_MAX_SIZE,
        ensures
            chosen_algo(data@, *config) != CompressionType::Uncompressed && data@.len() > MAX_COMPRESS_INPUT
                ==> r == Err::<WriteContext, ExofsError>(ExofsError::InvalidSize),
            chosen_algo(data@, *config) == CompressionType::Uncompressed || data@.len() <= MAX_COMPRESS_INPUT ==> (r matches Ok(ctx)
                && ctx.payload@ == data@ && ctx.algo == CompressionType::Uncompressed
                && ctx.original_size == data@.len() && ctx.stored_size == data@.len()),
    {
        let original_size = data.len() as u32;
        let algo = match config.forced_algo {
            Some(forced) => forced,
            None => if data.len() < COMPRESS_MIN_BYTES {
                CompressionType::Uncompressed
            } else {
                choose_compression(data, config.hint).algorithm
            },
        };
        let mut raw: Vec<u8> = Vec::new();
        push_bytes(&mut raw, data);
        let (payload, effective) = match algo {
            CompressionType::Uncompressed => (raw, CompressionType::Uncompressed),
            _ => {
                let compressed = CompressWriter::new(algo).compress(data)?;
                if compressed.len() < data.len() {
                    let alg = compressed.algo;
                    (compressed.data, alg)
                } else {
                    (raw, CompressionType::Uncompressed)
                }
            },
        };
        let stored_size = payload.len() as u32;
        Ok(WriteContext { original_size, stored_size, algo: effective, payload })
    }

    /// Allocates, then writes the header and the payload of a new blob.
    fn write_new<A, W>(data: &[u8], config: &BlobWriterConfig, blob_id: BlobId, alloc_fn: &A, write_fn: &W) -> (r: ExofsResult<BlobWriteResult>)
        where
            A: Fn(u64) -> ExofsResult<DiskOffset>,
            W: Fn(DiskOffset, &[u8]) -> ExofsResult<usize>,
        requires
            0 < data@.len() <= BLOB_MAX_SIZE,
            blob_id.0@ == blob_id_spec(data@),
            forall|n: u64| alloc_fn.requires((n,)),
            forall|o: DiskOffset, b: &[u8]| write_fn.requires((o, b)),
        ensures
            blob_write_basic(data@, *config, r),
            r matches Ok(res) ==> !res.dedup_hit && res.blob_id == blob_id && Self::stored(data@, *config, *alloc_fn, *write_fn, res),
            chosen_algo(data@, *config) != CompressionType::Uncompressed && data@.len() > MAX_COMPRESS_INPUT
                ==> r == Err::<BlobWriteResult, ExofsError>(ExofsError::InvalidSize),
            (chosen_algo(data@, *config) == CompressionType::Uncompressed || data@.len() <= MAX_COMPRESS_INPUT)
                && (forall|n: u64, a: ExofsResult<DiskOffset>| #[trigger] call_ensures(*alloc_fn, (n,), a)
                    ==> (a matches Ok(d) && d.0 + 64 <= u64::MAX))
                && (forall|o: DiskOffset, b: &[u8], w: ExofsResult<usize>| #[trigger] call_ensures(*write_fn, (o, b), w)
                    ==> w == Ok::<usize, ExofsError>(b@.len() as usize))
                ==> r is Ok,
    {
        let ctx = Self::compress_data(data, config)?;
        let total_raw = (BLOB_HEADER_SIZE + ctx.payload.len()) as u64;
        let total_aligned = match align_up(DiskOffset(total_raw), 4096) {
            Ok(d) => d.0,
            Err(e) => return Err(e),
        };
        let n_blocks = Self::size_to_blocks(total_aligned);
        proof {
            assert(total_aligned % 4096 == 0 && total_aligned >= total_raw && total_aligned < total_raw + 4096) by (nonlinear_arith)
                requires total_aligned == round_up(total_raw as int, 4096), total_raw >= 0;
            assert(n_blocks == total_aligned / 4096);
        }
        let base = alloc_fn(n_blocks)?;
        let header = Self::build_header(&ctx, blob_id, config);
        let hdr_bytes = header.as_bytes();
        let hb = hdr_bytes.as_slice();
        let written_hdr = write_fn(base, hb)?;
        if written_hdr != BLOB_HEADER_SIZE {
            return Err(ExofsError::ShortWrite);
        }
        proof {
            assert(call_ensures(*write_fn, (base, hb), Ok::<usize, ExofsError>(written_hdr)));
            assert(fresh_header(header, data@, config.epoch.0));
        }
        let payload_offset = match base.0.checked_add(BLOB_HEADER_SIZE as u64) {
            Some(p) => DiskOffset(p),
            None => return Err(ExofsError::Overflow),
        };
        let pb = ctx.payload.as_slice();
        let written_payload = write_fn(payload_offset, pb)?;
        if written_payload != ctx.payload.len() {
            return Err(ExofsError::ShortWrite);
        }
        proof {
            assert(call_ensures(*write_fn, (payload_offset, pb), Ok::<usize, ExofsError>(written_payload)));
        }
        Ok(BlobWriteResult {
            blob_id,
            offset: base,
            disk_size: total_aligned,
            original_size: ctx.original_size as u64,
            stored_size: ctx.stored_size as u64,
            algo: ctx.algo,
            dedup_hit: false,
            epoch: config.epoch,
            blocks_used: n_blocks,
        })
    }

    /// The sealed header of a new blob.
    fn build_header(ctx: &WriteContext, blob_id: BlobId, config: &BlobWriterConfig) -> (r: BlobHeaderDisk)
        ensures
            r.magic == BLOB_HEADER_MAGIC && r.version == BLOB_FORMAT_VERSION && r.flags == BLOB_FLAGS_DEFAULT,
            r._reserved0 == 0 && r.epoch == config.epoch.0 && r.blob_id == blob_id.0,
            r.original_size == ctx.original_size && r.stored_size == ctx.stored_size,
            r.compression_algo == crate::storage::compression_choice::type_code(ctx.algo),
            sealed(r),
    {
        let algo_byte: u8 = match ctx.algo {
            CompressionType::Uncompressed => 0,
            CompressionType::Lz4 => 1,
            CompressionType::Zstd => 2,
        };
        let mut hdr = BlobHeaderDisk {
            magic: BLOB_HEADER_MAGIC,
            version: BLOB_FORMAT_VERSION,
            compression_algo: algo_byte,
            flags: BLOB_FLAGS_DEFAULT,
            _reserved0: 0,
            original_size: ctx.original_size,
            stored_size: ctx.stored_size,
            epoch: config.epoch.0,
            blob_id: blob_id.0,
            header_checksum: [0u8; 4],
        };
        let raw = hdr.as_bytes();
        let c = checksum_of_prefix(raw.as_slice());
        proof {
            assert(raw@.subrange(0, 56) =~= prefix_of(hdr));
        }
        hdr.header_checksum = c;
        proof {
            assert(prefix_of(hdr) =~= raw@.subrange(0, 56));
        }
        hdr
    }

    /// Blocks needed for `size` bytes, rounding up (the largest count when
    /// the rounding overflows).
    pub fn size_to_blocks(size: u64) -> (r: u64)
        ensures
            r == (if size + 4095 > u64::MAX { (u64::MAX / 4096) as int } else { (size + 4095) / 4096 }),
    {
        match size.checked_add(4095) {
            Some(s) => s / 4096,
            None => u64::MAX / 4096,
        }
    }

    /// Bytes on disk of a blob of `original_size` bytes stored as they are
    /// (`u64::MAX` when that overflows).
    pub fn disk_size_for(original_size: usize) -> (r: u64)
        ensures
            ({
                let t = if 64 + original_size > usize::MAX { usize::MAX as int } else { 64 + original_size };
                r == (if t + 4095 > u64::MAX { u64::MAX as int } else { round_up(t, 4096) })
            }),
    {
        let total = BLOB_HEADER_SIZE.saturating_add(original_size);
        match align_up(DiskOffset(total as u64), 4096) {
            Ok(d) => d.0,
            Err(_) => u64::MAX,
        }
    }
}

/// Bytes on disk of a blob whose payload holds `stored_size` bytes.
pub fn blob_total_disk_size(stored_size: u32) -> (r: u64)
    ensures
        r == round_up(64 + stored_size, 4096),
{
    let raw = (BLOB_HEADER_SIZE as u64) + (stored_size as u64);
    match align_up(DiskOffset(raw), 4096) {
        Ok(d) => d.0,
        Err(_) => u64::MAX,
    }
}

/// Outcome of one blob of a batch.
pub struct BatchBlobResult {
    pub index: usize,
    pub result: ExofsResult<BlobWriteResult>,
}

/// Blobs gathered to be written together.
pub struct BatchBlobWriter {
    config: BlobWriterConfig,
    pending: Vec<(usize, Vec<u8>)>,
    results: Vec<BatchBlobResult>,
}

/// Saturating sum of the lengths of the first `k` pending blobs.
pub open spec fn pending_len(p: Seq<(usize, Vec<u8>)>, k: int) -> int
    decreases k,
{
    if k <= 0 {
        0
    } else {
        let s = pending_len(p, k - 1) + p[k - 1].1@.len();
        if s > u64::MAX { u64::MAX as int } else { s }
    }
}

impl BatchBlobWriter {
    /// An empty batch written with `config`.
    pub fn new(config: BlobWriterConfig) -> (r: BatchBlobWriter)
        ensures
            r.config() == config,
            r.pending()@.len() == 0,
    {
        BatchBlobWriter { config, pending: Vec::new(), results: Vec::new() }
    }

    /// The settings of the batch.
    pub closed spec fn config(&self) -> BlobWriterConfig {
        self.config
    }

    /// The blobs waiting, with their indices.
    pub closed spec fn pending(&self) -> Vec<(usize, Vec<u8>)> {
        self.pending
    }

    /// Adds a copy of `data` under `index`; a blob over the size limit is refused.
    pub fn add(&mut self, index: usize, data: &[u8]) -> (r: ExofsResult<()>)
        ensures
            final(self).config() == old(self).config(),
            data@.len() > BLOB_MAX_SIZE ==> r == Err::<(), ExofsError>(ExofsError::InvalidSize)
                && final(self).pending()@ == old(self).pending()@,
            data@.len() <= BLOB_MAX_SIZE ==> r is Ok && final(self).pending()@.len() == old(self).pending()@.len() + 1
                && final(self).pending()@.drop_last() == old(self).pending()@
                && final(self).pending()@.last().0 == index && final(self).pending()@.last().1@ == data@,
    {
        if data.len() > BLOB_MAX_SIZE {
            return Err(ExofsError::InvalidSize);
        }
        let mut v: Vec<u8> = Vec::new();
        push_bytes(&mut v, data);
        self.pending.push((index, v));
        proof {
            assert(self.pending@.drop_last() =~= old(self).pending@);
        }
        Ok(())
    }

    /// Writes every waiting blob in order, looking each up with `dedup_check`
    /// first; the batch is empty afterwards. One result per blob, in order.
    pub fn flush<A, W, D>(&mut self, alloc_fn: A, write_fn: W, dedup_check: D) -> (r: ExofsResult<Vec<BatchBlobResult>>)
        where
            A: Fn(u64) -> ExofsResult<DiskOffset>,
            W: Fn(DiskOffset, &[u8]) -> ExofsResult<usize>,
            D: Fn(&BlobId) -> Option<DiskOffset>,
        requires
            forall|n: u64| alloc_fn.requires((n,)),
            forall|o: DiskOffset, b: &[u8]| write_fn.requires((o, b)),
            forall|id: &BlobId| dedup_check.requires((id,)),
        ensures
            final(self).config() == old(self).config(),
            final(self).pending()@.len() == 0,
            r matches Ok(res) && res@.len() == old(self).pending()@.len() && forall|k: int| 0 <= k < res@.len() ==> {
                let data = old(self).pending()@[k].1@;
                &&& (#[trigger] res@[k]).index == old(self).pending()@[k].0
                &&& blob_write_basic(data, old(self).config(), res@[k].result)
                &&& res@[k].result matches Ok(w) ==> (!w.dedup_hit ==> BlobWriter::stored(data, old(self).config(), alloc_fn, write_fn, w))
            },
    {
        let mut pending: Vec<(usize, Vec<u8>)> = Vec::new();
        std::mem::swap(&mut pending, &mut self.pending);
        let mut out: Vec<BatchBlobResult> = Vec::new();
        let mut i: usize = 0;
        while i < pending.len()
            invariant
                forall|n: u64| alloc_fn.requires((n,)),
                forall|o: DiskOffset, b: &[u8]| write_fn.requires((o, b)),
                forall|id: &BlobId| dedup_check.requires((id,)),
                pending@ == old(self).pending@,
                self.config == old(self).config,
                self.pending@.len() == 0,
                0 <= i <= pending@.len(),
                out@.len() == i,
                forall|k: int| 0 <= k < i ==> {
                    let data = pending@[k].1@;
                    &&& (#[trigger] out@[k]).index == pending@[k].0
                    &&& blob_write_basic(data, self.config, out@[k].result)
                    &&& out@[k].result matches Ok(w) ==> (!w.dedup_hit ==> BlobWriter::stored(data, self.config, alloc_fn, write_fn, w))
                },
            decreases pending.len() - i,
        {
            let data = pending[i].1.as_slice();
            let blob_id = compute_blob_id(data);
            let dedup_ref = dedup_check(&blob_id);
            let res = if data.len() == 0 {
                Err(ExofsError::InvalidArgument)
            } else if data.len() > BLOB_MAX_SIZE {
                Err(ExofsError::InvalidSize)
            } else {
                match dedup_ref {
                    Some(existing) => if self.config.dedup_enabled {
                        Ok(BlobWriter::dedup_result(data, &self.config, blob_id, existing))
                    } else {
                        BlobWriter::write_new(data, &self.config, blob_id, &alloc_fn, &write_fn)
                    },
                    None => BlobWriter::write_new(data, &self.config, blob_id, &alloc_fn, &write_fn),
                }
            };
            out.push(BatchBlobResult { index: pending[i].0, result: res });
            i += 1;
        }
        self.results = Vec::new();
        Ok(out)
    }

    /// Number of blobs waiting.
    pub fn pending_count(&self) -> (r: usize)
        ensures
            r == self.pending()@.len(),
    {
        self.pending.len()
    }

    /// Bytes waiting, clamped to `u64::MAX`.
    pub fn pending_bytes(&self) -> (r: u64)
        ensures
            r == pending_len(self.pending()@, self.pending()@.len() as int),
    {
        let mut acc: u64 = 0;
        let mut i: usize = 0;
        while i < self.pending.len()
            invariant
                0 <= i <= self.pending@.len(),
                acc == pending_len(self.pending@, i as int),
            decreases self.pending.len() - i,
        {
            acc = acc.saturating_add(self.pending[i].1.len() as u64);
            i += 1;
        }
        acc
    }

    /// Drops the waiting blobs without writing them.
    pub fn clear(&mut self)
        ensures
            final(self).config() == old(self).config(),
            final(self).pending()@.len() == 0,
    {
        self.pending.clear();
    }
}

/// Writes `data` at `offset` padded with zeros to whole blocks; returns the
/// length of `data`.
pub fn write_padded<W>(write_fn: W, offset: DiskOffset, data: &[u8]) -> (r: ExofsResult<usize>)
    where
        W: Fn(DiskOffset, &[u8]) -> ExofsResult<usize>,
    requires
        data@.len() + 4095 <= usize::MAX,
        forall|o: DiskOffset, b: &[u8]| write_fn.requires((o, b)),
    ensures
        r matches Ok(n) ==> n == data@.len() && {
            let padded = round_up(data@.len() as int, 4096);
            wrote_at(write_fn, offset, data@ + Seq::new((padded - data@.len()) as nat, |i: int| 0u8), padded as usize)
        },
        r matches Err(e) ==> {
            let padded = round_up(data@.len() as int, 4096);
            let bytes = data@ + Seq::new((padded - data@.len()) as nat, |i: int| 0u8);
            ||| exists|b: &[u8]| b@ == bytes && #[trigger] call_ensures(write_fn, (offset, b), Err::<usize, ExofsError>(e))
            ||| (e == ExofsError::ShortWrite && exists|b: &[u8], n: usize| b@ == bytes && n != padded
                && #[trigger] call_ensures(write_fn, (offset, b), Ok::<usize, ExofsError>(n)))
        },
{
    let aligned = match align_up(DiskOffset(data.len() as u64), 4096) {
        Ok(d) => d.0 as usize,
        Err(e) => return Err(e),
    };
    proof {
        assert(aligned >= data@.len() && aligned < data@.len() + 4096) by (nonlinear_arith)
            requires aligned == round_up(data@.len() as int, 4096);
    }
    if aligned == data.len() {
        proof {
            assert(data@ + Seq::new(0, |i: int| 0u8) =~= data@);
        }
        let n = match write_fn(offset, data) {
            Ok(n) => n,
            Err(e) => return Err(e),
        };
        if n != data.len() {
            return Err(ExofsError::ShortWrite);
        }
        proof {
            assert(call_ensures(write_fn, (offset, data), Ok::<usize, ExofsError>(n)));
        }
        return Ok(n);
    }
    let mut padded: Vec<u8> = Vec::new();
    push_bytes(&mut padded, data);
    let zeros = crate::bytes::zeroed(aligned - data.len());
    push_bytes(&mut padded, zeros.as_slice());
    let pb = padded.as_slice();
    proof {
        assert(pb@ =~= data@ + Seq::new((round_up(data@.len() as int, 4096) - data@.len()) as nat, |i: int| 0u8));
    }
    let n = match write_fn(offset, pb) {
        Ok(n) => n,
        Err(e) => return Err(e),
    };
    if n != padded.len() {
        return Err(ExofsError::ShortWrite);
    }
    proof {
        assert(call_ensures(write_fn, (offset, pb), Ok::<usize, ExofsError>(n)));
    }
    Ok(data.len())
}

} // verus!


