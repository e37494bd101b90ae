//! A snapshot: its header on disk (magic checked first, then a Blake3
//! checksum), its form in memory, and the conversions between the two.
use vstd::prelude::*;
use vstd::utf8::valid_utf8;
use vstd::string::StringSliceAdditionalSpecFns;
use crate::types::{BlobId, DiskOffset, EpochId, ExofsError, ExofsResult, SnapshotId};
use crate::hash::{blake3_hash, blake3_spec};
use crate::bytes::{le16, le32, le64, get16, get32, get64, push_u16, push_u32, push_u64, push_bytes, read_u16, read_u32, read_u64, copy_range};

pub mod flags;

verus! {

/// Magic of a snapshot header: "SNAP".
pub const SNAPSHOT_MAGIC: u32 = 0x534E_4150;
/// Nominal size of a snapshot header; the checksum covers the first
/// `SNAPSHOT_HEADER_SIZE - 32` bytes of the serialized header.
pub const SNAPSHOT_HEADER_SIZE: usize = 256;
/// Format version written in new headers.
pub const SNAPSHOT_FORMAT_VERSION: u8 = 1;
/// Bytes of a snapshot name.
pub const SNAPSHOT_NAME_LEN: usize = 128;
/// Largest number of snapshots at once.
pub const SNAPSHOT_MAX_COUNT: usize = 1024;
/// Bytes of a serialized header: every field, little-endian, in order. The
/// fields take 16 bytes more than the nominal `SNAPSHOT_HEADER_SIZE`; the image
/// keeps every one of them, the checksum included.
pub const SNAPSHOT_IMAGE_SIZE: usize = 272;
/// Bytes covered by the header checksum.
pub const SNAPSHOT_CHECKSUM_SPAN: usize = 224;

/// Snapshot header as stored on disk.
#[derive(Clone, Copy)]
pub struct SnapshotHeaderDisk {
    pub magic: u32,
    pub version: u8,
    pub flags: u32,
    pub _pad0: [u8; 3],
    pub id: u64,
    pub epoch_id: u64,
    /// 0 for a snapshot without parent.
    pub parent_id: u64,
    pub root_blob: [u8; 32],
    pub created_at: u64,
    pub n_blobs: u64,
    pub total_bytes: u64,
    pub blob_catalog_offset: u64,
    pub blob_catalog_size: u32,
    pub name_len: u16,
    pub _pad1: [u8; 6],
    pub name: [u8; 128],
    pub checksum: [u8; 32],
}

/// The serialized header.
pub open spec fn image_of(h: SnapshotHeaderDisk) -> Seq<u8> {
    le32(h.magic) + seq![h.version] + le32(h.flags) + h._pad0@ + le64(h.id) + le64(h.epoch_id) + le64(h.parent_id)
        + h.root_blob@ + le64(h.created_at) + le64(h.n_blobs) + le64(h.total_bytes) + le64(h.blob_catalog_offset)
        + le32(h.blob_catalog_size) + le16(h.name_len) + h._pad1@ + h.name@ + h.checksum@
}

/// The checksum a header should carry: the digest of the first
/// `SNAPSHOT_CHECKSUM_SPAN` bytes of its serialized form.
pub open spec fn body_checksum(h: SnapshotHeaderDisk) -> Seq<u8> {
    blake3_spec(image_of(h).subrange(0, SNAPSHOT_CHECKSUM_SPAN as int))
}

/// What checking a header gives: the magic first, then the version, then the
/// checksum.
pub open spec fn header_check(h: SnapshotHeaderDisk) -> ExofsResult<()> {
    if h.magic != SNAPSHOT_MAGIC {
        Err(ExofsError::BadMagic)
    } else if h.version != SNAPSHOT_FORMAT_VERSION {
        Err(ExofsError::InvalidArgument)
    } else if h.checksum@ != body_checksum(h) {
        Err(ExofsError::ChecksumMismatch)
    } else {
        Ok(())
    }
}

/// `raw` holds the fields of `h` at their places.
pub open spec fn header_reads_as(h: SnapshotHeaderDisk, raw: Seq<u8>) -> bool {
    &&& raw.len() >= SNAPSHOT_IMAGE_SIZE
    &&& h.magic == get32(raw, 0)
    &&& h.version == raw[4]
    &&& h.flags == get32(raw, 5)
    &&& h._pad0@ == raw.subrange(9, 12)
    &&& h.id == get64(raw, 12)
    &&& h.epoch_id == get64(raw, 20)
    &&& h.parent_id == get64(raw, 28)
    &&& h.root_blob@ == raw.subrange(36, 68)
    &&& h.created_at == get64(raw, 68)
    &&& h.n_blobs == get64(raw, 76)
    &&& h.total_bytes == get64(raw, 84)
    &&& h.blob_catalog_offset == get64(raw, 92)
    &&& h.blob_catalog_size == get32(raw, 100)
    &&& h.name_len == get16(raw, 104)
    &&& h._pad1@ == raw.subrange(106, 112)
    &&& h.name@ == raw.subrange(112, 240)
    &&& h.checksum@ == raw.subrange(240, 272)
}

/// `N` bytes of `b` from `at`.
fn bytes_at<const N: usize>(b: &[u8], at: usize) -> (r: [u8; N])
    requires
        at + N <= b@.len(),
    ensures
        r@ == b@.subrange(at as int, at + N),
{
    let mut r: [u8; N] = [0u8; N];
    let mut i: usize = 0;
    while i < N
        invariant
            0 <= i <= N,
            at + N <= b@.len(),
            b@.len() == b.len(),
            r@.len() == N,
            forall|k: int| 0 <= k < i ==> r@[k] == b@[at + k],
        decreases N - i,
    {
        r[i] = b[at + i];
        i += 1;
    }
    proof {
        assert(r@ =~= b@.subrange(at as int, at + N));
    }
    r
}

impl SnapshotHeaderDisk {
    /// The digest of the bytes covered by the checksum.
    pub fn compute_checksum(&self) -> (r: [u8; 32])
        ensures
            r@ == body_checksum(*self),
    {
        let raw = self.as_bytes();
        let body = copy_range(raw.as_slice(), 0, SNAPSHOT_CHECKSUM_SPAN);
        blake3_hash(body.as_slice())
    }

    /// Checks the magic first, then the version, then the checksum.
    pub fn verify(&self) -> (r: ExofsResult<()>)
        ensures
            r == header_check(*self),
    {
        if self.magic != SNAPSHOT_MAGIC {
            return Err(ExofsError::BadMagic);
        }
        if self.version != SNAPSHOT_FORMAT_VERSION {
            return Err(ExofsError::InvalidArgument);
        }
        let expected = self.compute_checksum();
        let mut same = true;
        let mut i: usize = 0;
        while i < 32
            invariant
                0 <= i <= 32,
                same == forall|k: int| 0 <= k < i ==> expected@[k] == self.checksum@[k],
            decreases 32 - i,
        {
            if expected[i] != self.checksum[i] {
                same = false;
            }
            i += 1;
        }
        if !same {
            return Err(ExofsError::ChecksumMismatch);
        }
        proof {
            assert(expected@ =~= self.checksum@);
        }
        Ok(())
    }

    /// Stores the checksum of the other fields.
    pub fn finalize(&mut self)
        ensures
            final(self).checksum@ == body_checksum(*old(self)),
            *final(self) == (SnapshotHeaderDisk { checksum: final(self).checksum, ..*old(self) }),
    {
        self.checksum = self.compute_checksum();
    }

    /// The serialized header.
    pub fn as_bytes(&self) -> (r: Vec<u8>)
        ensures
            r@ == image_of(*self),
    {
        let mut v: Vec<u8> = Vec::new();
        push_u32(&mut v, self.magic);
        v.push(self.version);
        push_u32(&mut v, self.flags);
        push_bytes(&mut v, self._pad0.as_slice());
        push_u64(&mut v, self.id);
        push_u64(&mut v, self.epoch_id);
        push_u64(&mut v, self.parent_id);
        push_bytes(&mut v, self.root_blob.as_slice());
        push_u64(&mut v, self.created_at);
        push_u64(&mut v, self.n_blobs);
        push_u64(&mut v, self.total_bytes);
        push_u64(&mut v, self.blob_catalog_offset);
        push_u32(&mut v, self.blob_catalog_size);
        push_u16(&mut v, self.name_len);
        push_bytes(&mut v, self._pad1.as_slice());
        push_bytes(&mut v, self.name.as_slice());
        push_bytes(&mut v, self.checksum.as_slice());
        proof {
            assert(v@ =~= image_of(*self));
        }
        v
    }

    /// Reads the fields of a serialized header, unchecked.
    pub fn from_bytes(buf: &[u8]) -> (r: ExofsResult<SnapshotHeaderDisk>)
        ensures
            buf@.len() < SNAPSHOT_IMAGE_SIZE ==> r == Err::<SnapshotHeaderDisk, ExofsError>(ExofsError::InvalidSize),
            buf@.len() >= SNAPSHOT_IMAGE_SIZE ==> (r matches Ok(h) && header_reads_as(h, buf@)),
    {
        if buf.len() < SNAPSHOT_IMAGE_SIZE {
            return Err(ExofsError::InvalidSize);
        }
        Ok(SnapshotHeaderDisk {
            magic: read_u32(buf, 0),
            version: buf[4],
            flags: read_u32(buf, 5),
            _pad0: bytes_at(buf, 9),
            id: read_u64(buf, 12),
            epoch_id: read_u64(buf, 20),
            parent_id: read_u64(buf, 28),
            root_blob: bytes_at(buf, 36),
            created_at: read_u64(buf, 68),
            n_blobs: read_u64(buf, 76),
            total_bytes: read_u64(buf, 84),
            blob_catalog_offset: read_u64(buf, 92),
            blob_catalog_size: read_u32(buf, 100),
            name_len: read_u16(buf, 104),
            _pad1: bytes_at(buf, 106),
            name: bytes_at(buf, 112),
            checksum: bytes_at(buf, 240),
        })
    }
}

/// Calls `std::str::from_utf8` on `b`.
///
/// Trusted: as the documentation of `std::str::from_utf8` says, a string is
/// returned exactly when the bytes are valid UTF-8, and it is made of those
/// bytes.
#[verifier::external_body]
pub(crate) fn utf8_str(b: &[u8]) -> (r: Option<&str>)
    ensures
        r is Some <==> valid_utf8(b@),
        r matches Some(s) ==> s.spec_bytes() == b@,
{
    std::str::from_utf8(b).ok()
}

/// Position of the first zero byte of `n` at or after `i`, or its length.
pub open spec fn zero_from(n: Seq<u8>, i: int) -> int
    decreases n.len() - i,
{
    if i >= n.len() || i < 0 {
        n.len() as int
    } else if n[i] == 0 {
        i
    } else {
        zero_from(n, i + 1)
    }
}

/// Length of a zero-padded name: the position of its first zero byte.
pub open spec fn name_end(n: Seq<u8>) -> int {
    zero_from(n, 0)
}

/// A snapshot in memory.
#[derive(Clone, Copy, Debug)]
pub struct Snapshot {
    pub id: SnapshotId,
    pub epoch_id: EpochId,
    /// `None` for a root snapshot.
    pub parent_id: Option<SnapshotId>,
    /// Root over the identifiers of its blobs.
    pub root_blob: BlobId,
    pub created_at: u64,
    pub n_blobs: u64,
    pub total_bytes: u64,
    pub flags: u32,
    pub blob_catalog_offset: DiskOffset,
    pub blob_catalog_size: u32,
    /// Zero-padded name.
    pub name: [u8; 128],
}

/// The header written for snapshot `s`, before its checksum.
pub open spec fn header_fields(h: SnapshotHeaderDisk, s: Snapshot) -> bool {
    &&& h.magic == SNAPSHOT_MAGIC
    &&& h.version == SNAPSHOT_FORMAT_VERSION
    &&& h.flags == s.flags
    &&& h._pad0@ == seq![0u8, 0u8, 0u8]
    &&& h.id == s.id.0
    &&& h.epoch_id == s.epoch_id.0
    &&& h.parent_id == (match s.parent_id { Some(p) => p.0, None => 0 })
    &&& h.root_blob@ == s.root_blob.0@
    &&& h.created_at == s.created_at
    &&& h.n_blobs == s.n_blobs
    &&& h.total_bytes == s.total_bytes
    &&& h.blob_catalog_offset == s.blob_catalog_offset.0
    &&& h.blob_catalog_size == s.blob_catalog_size
    &&& h.name_len == name_end(s.name@)
    &&& h._pad1@ == seq![0u8, 0u8, 0u8, 0u8, 0u8, 0u8]
    &&& h.name@ == s.name@
}

/// The snapshot read from header `h`.
pub open spec fn snapshot_fields(s: Snapshot, h: SnapshotHeaderDisk) -> bool {
    &&& s.id == SnapshotId(h.id)
    &&& s.epoch_id == EpochId(h.epoch_id)
    &&& s.parent_id == (if h.parent_id == 0 { None } else { Some(SnapshotId(h.parent_id)) })
    &&& s.root_blob.0@ == h.root_blob@
    &&& s.created_at == h.created_at
    &&& s.n_blobs == h.n_blobs
    &&& s.total_bytes == h.total_bytes
    &&& s.flags == h.flags
    &&& s.blob_catalog_offset == DiskOffset(h.blob_catalog_offset)
    &&& s.blob_catalog_size == h.blob_catalog_size
    &&& s.name@ == h.name@
}

impl Snapshot {
    /// Read-only flag.
    pub fn is_readonly(&self) -> (r: bool)
        ensures
            r == (self.flags & flags::READONLY != 0),
    {
        self.flags & flags::READONLY != 0
    }

    /// Protected flag.
    pub fn is_protected(&self) -> (r: bool)
        ensures
            r == (self.flags & flags::PROTECTED != 0),
    {
        self.flags & flags::PROTECTED != 0
    }

    /// Streaming flag.
    pub fn is_streaming(&self) -> (r: bool)
        ensures
            r == (self.flags & flags::STREAMING != 0),
    {
        self.flags & flags::STREAMING != 0
    }

    /// Mounted flag.
    pub fn is_mounted(&self) -> (r: bool)
        ensures
            r == (self.flags & flags::MOUNTED != 0),
    {
        self.flags & flags::MOUNTED != 0
    }

    /// Restoring flag.
    pub fn is_restoring(&self) -> (r: bool)
        ensures
            r == (self.flags & flags::RESTORING != 0),
    {
        self.flags & flags::RESTORING != 0
    }

    /// Orphan flag.
    pub fn is_orphan(&self) -> (r: bool)
        ensures
            r == (self.flags & flags::ORPHAN != 0),
    {
        self.flags & flags::ORPHAN != 0
    }

    /// Incremental flag.
    pub fn is_incremental(&self) -> (r: bool)
        ensures
            r == (self.flags & flags::INCREMENTAL != 0),
    {
        self.flags & flags::INCREMENTAL != 0
    }

    /// Sets the bits of `flag`.
    pub fn set_flag(&mut self, flag: u32)
        ensures
            *final(self) == (Snapshot { flags: old(self).flags | flag, ..*old(self) }),
    {
        self.flags = self.flags | flag;
    }

    /// Clears the bits of `flag`.
    pub fn clear_flag(&mut self, flag: u32)
        ensures
            *final(self) == (Snapshot { flags: old(self).flags & !flag, ..*old(self) }),
    {
        self.flags = self.flags & !flag;
    }

    /// Flips the bits of `flag`.
    pub fn toggle_flag(&mut self, flag: u32)
        ensures
            *final(self) == (Snapshot { flags: old(self).flags ^ flag, ..*old(self) }),
    {
        self.flags = self.flags ^ flag;
    }

    /// Length of the name: the position of its first zero byte.
    pub fn name_len(&self) -> (r: u16)
        ensures
            r == name_end(self.name@),
    {
        name_end_exec(&self.name) as u16
    }

    /// The name as text, or `"<invalid>"` when it is not UTF-8.
    pub fn name_str(&self) -> (r: &str)
        ensures
            valid_utf8(self.name@.subrange(0, name_end(self.name@))) ==> r.spec_bytes() == self.name@.subrange(0, name_end(self.name@)),
            !valid_utf8(self.name@.subrange(0, name_end(self.name@))) ==> r@ == "<invalid>"@,
    {
        let end = name_end_exec(&self.name);
        let prefix = vstd::slice::slice_subrange(self.name.as_slice(), 0, end);
        match utf8_str(prefix) {
            Some(s) => s,
            None => "<invalid>",
        }
    }

    /// The header for this snapshot, with its checksum.
    pub fn to_header_disk(&self) -> (r: SnapshotHeaderDisk)
        ensures
            header_fields(r, *self),
            r.checksum@ == body_checksum(r),
    {
        let mut hdr = SnapshotHeaderDisk {
            magic: SNAPSHOT_MAGIC,
            version: SNAPSHOT_FORMAT_VERSION,
            flags: self.flags,
            _pad0: [0u8; 3],
            id: self.id.0,
            epoch_id: self.epoch_id.0,
            parent_id: match self.parent_id {
                Some(p) => p.0,
                None => 0,
            },
            root_blob: self.root_blob.0,
            created_at: self.created_at,
            n_blobs: self.n_blobs,
            total_bytes: self.total_bytes,
            blob_catalog_offset: self.blob_catalog_offset.0,
            blob_catalog_size: self.blob_catalog_size,
            name_len: self.name_len(),
            _pad1: [0u8; 6],
            name: self.name,
            checksum: [0u8; 32],
        };
        proof {
            assert(hdr._pad0@ =~= seq![0u8, 0u8, 0u8]);
            assert(hdr._pad1@ =~= seq![0u8, 0u8, 0u8, 0u8, 0u8, 0u8]);
        }
        let ghost before = hdr;
        hdr.finalize();
        proof {
            assert(image_of(hdr).subrange(0, 224) =~= image_of(before).subrange(0, 224));
        }
        hdr
    }

    /// The snapshot of a header whose magic, version and checksum are good.
    pub fn from_header_disk(hdr: &SnapshotHeaderDisk) -> (r: ExofsResult<Snapshot>)
        ensures
            header_check(*hdr) matches Err(e) ==> r == Err::<Snapshot, ExofsError>(e),
            header_check(*hdr) is Ok ==> (r matches Ok(s) && snapshot_fields(s, *hdr)),
    {
        hdr.verify()?;
        let parent_id = if hdr.parent_id == 0 { None } else { Some(SnapshotId(hdr.parent_id)) };
        Ok(Snapshot {
            id: SnapshotId(hdr.id),
            epoch_id: EpochId(hdr.epoch_id),
            parent_id,
            root_blob: BlobId(hdr.root_blob),
            created_at: hdr.created_at,
            n_blobs: hdr.n_blobs,
            total_bytes: hdr.total_bytes,
            flags: hdr.flags,
            blob_catalog_offset: DiskOffset(hdr.blob_catalog_offset),
            blob_catalog_size: hdr.blob_catalog_size,
            name: hdr.name,
        })
    }

    /// Ticks since creation, 0 when `now` is earlier.
    pub fn age_ticks(&self, now: u64) -> (r: u64)
        ensures
            r == (if now >= self.created_at { now - self.created_at } else { 0 }),
    {
        now.saturating_sub(self.created_at)
    }

    /// True iff the parent is `ancestor_id`.
    pub fn has_parent(&self, ancestor_id: SnapshotId) -> (r: bool)
        ensures
            r == (self.parent_id == Some(ancestor_id)),
    {
        match self.parent_id {
            Some(p) => p.0 == ancestor_id.0,
            None => false,
        }
    }
}

/// Position of the first zero byte of a name, or its length.
fn name_end_exec(n: &[u8; 128]) -> (r: usize)
    ensures
        r == name_end(n@),
        r <= 128,
{
    let mut i: usize = 0;
    while i < 128
        invariant
            0 <= i <= 128,
            n@.len() == 128,
            zero_from(n@, 0) == zero_from(n@, i as int),
        decreases 128 - i,
    {
        if n[i] == 0 {
            return i;
        }
        i += 1;
    }
    i
}

/// A snapshot written and read back gives the same snapshot: its header
/// passes the checks and every field comes back, for any snapshot whose
/// parent, if any, is not 0 (0 marks "no parent" on disk).
pub proof fn lemma_header_roundtrip(s: Snapshot, h: SnapshotHeaderDisk, s2: Snapshot)
    requires
        header_fields(h, s),
        h.checksum@ == body_checksum(h),
        snapshot_fields(s2, h),
        s.parent_id != Some(SnapshotId(0)),
    ensures
        header_check(h) == Ok::<(), ExofsError>(()),
        s2.id == s.id && s2.epoch_id == s.epoch_id && s2.parent_id == s.parent_id,
        s2.root_blob.0@ == s.root_blob.0@ && s2.name@ == s.name@,
        s2.created_at == s.created_at && s2.n_blobs == s.n_blobs && s2.total_bytes == s.total_bytes,
        s2.flags == s.flags && s2.blob_catalog_offset == s.blob_catalog_offset && s2.blob_catalog_size == s.blob_catalog_size,
{
}

/// The ancestors of a snapshot, from the snapshot itself to the root.
pub struct SnapshotChain {
    pub ids: Vec<SnapshotId>,
}

impl SnapshotChain {
    /// Number of snapshots in the chain.
    pub fn len(&self) -> (r: usize)
        ensures
            r == self.ids@.len(),
    {
        self.ids.len()
    }

    /// True iff the chain is empty.
    pub fn is_empty(&self) -> (r: bool)
        ensures
            r == (self.ids@.len() == 0),
    {
        self.ids.len() == 0
    }

    /// The root: the last of the chain.
    pub fn root(&self) -> (r: Option<SnapshotId>)
        ensures
            self.ids@.len() == 0 ==> r is None,
            self.ids@.len() > 0 ==> r == Some(self.ids@.last()),
    {
        if self.ids.len() == 0 {
            None
        } else {
            Some(self.ids[self.ids.len() - 1])
        }
    }

    /// The tip: the first of the chain.
    pub fn tip(&self) -> (r: Option<SnapshotId>)
        ensures
            self.ids@.len() == 0 ==> r is None,
            self.ids@.len() > 0 ==> r == Some(self.ids@[0]),
    {
        if self.ids.len() == 0 {
            None
        } else {
            Some(self.ids[0])
        }
    }
}

/// The main metadata of a snapshot.
#[derive(Clone, Copy, Debug)]
pub struct SnapshotRef {
    pub id: SnapshotId,
    pub epoch_id: EpochId,
    pub parent_id: Option<SnapshotId>,
    pub n_blobs: u64,
    pub total_bytes: u64,
    pub flags: u32,
    pub created_at: u64,
}

/// The metadata of `s`.
pub open spec fn ref_of(s: Snapshot) -> SnapshotRef {
    SnapshotRef {
        id: s.id,
        epoch_id: s.epoch_id,
        parent_id: s.parent_id,
        n_blobs: s.n_blobs,
        total_bytes: s.total_bytes,
        flags: s.flags,
        created_at: s.created_at,
    }
}

impl<'a> From<&'a Snapshot> for SnapshotRef {
    fn from(s: &'a Snapshot) -> (r: SnapshotRef) {
        SnapshotRef {
            id: s.id,
            epoch_id: s.epoch_id,
            parent_id: s.parent_id,
            n_blobs: s.n_blobs,
            total_bytes: s.total_bytes,
            flags: s.flags,
            created_at: s.created_at,
        }
    }
}

impl<'a> vstd::std_specs::convert::FromSpecImpl<&'a Snapshot> for SnapshotRef {
    open spec fn obeys_from_spec() -> bool {
        true
    }

    open spec fn from_spec(s: &'a Snapshot) -> SnapshotRef {
        ref_of(*s)
    }
}

/// Reads a serialized header and checks it.
pub fn verify_snapshot_header(buf: &[u8]) -> (r: ExofsResult<SnapshotHeaderDisk>)
    ensures
        buf@.len() < SNAPSHOT_IMAGE_SIZE ==> r == Err::<SnapshotHeaderDisk, ExofsError>(ExofsError::InvalidSize),
        buf@.len() >= SNAPSHOT_IMAGE_SIZE ==> forall|h: SnapshotHeaderDisk| #[trigger] header_reads_as(h, buf@) ==> {
            &&& header_check(h) matches Err(e) ==> r == Err::<SnapshotHeaderDisk, ExofsError>(e)
            &&& header_check(h) is Ok ==> (r matches Ok(h2) && header_reads_as(h2, buf@))
        },
{
    let hdr = SnapshotHeaderDisk::from_bytes(buf)?;
    proof {
        assert forall|h: SnapshotHeaderDisk| #[trigger] header_reads_as(h, buf@) implies header_check(h) == header_check(hdr) by {
            assert(h._pad0@ == hdr._pad0@ && h.root_blob@ == hdr.root_blob@ && h._pad1@ == hdr._pad1@);
            assert(h.name@ == hdr.name@ && h.checksum@ == hdr.checksum@);
            assert(image_of(h) =~= image_of(hdr));
        }
    }
    hdr.verify()?;
    Ok(hdr)
}

/// A zero-padded name holding the first bytes of `src`, cut at the name size.
pub fn make_snapshot_name(src: &[u8]) -> (r: [u8; 128])
    ensures
        ({
            let n = if src@.len() < 128 { src@.len() as int } else { 128 };
            r@ == src@.subrange(0, n) + Seq::new((128 - n) as nat, |i: int| 0u8)
        }),
{
    let mut name: [u8; 128] = [0u8; 128];
    let len: usize = if src.len() < SNAPSHOT_NAME_LEN { src.len() } else { SNAPSHOT_NAME_LEN };
    let mut i: usize = 0;
    while i < len
        invariant
            0 <= i <= len,
            len <= 128,
            len <= src@.len(),
            name@.len() == 128,
            forall|k: int| 0 <= k < i ==> name@[k] == src@[k],
            forall|k: int| i <= k < 128 ==> name@[k] == 0,
        decreases len - i,
    {
        name[i] = src[i];
        i += 1;
    }
    proof {
        let n = len as int;
        assert(name@ =~= src@.subrange(0, n) + Seq::new((128 - n) as nat, |i: int| 0u8));
    }
    name
}

} // verus!

