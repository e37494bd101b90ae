//! Blake3 checksums: a 36-byte tag (magic + digest) framed after the data.
use vstd::prelude::*;
use crate::types::{DiskOffset, ExofsError, ExofsResult};
use crate::hash::{blake3_hash, blake3_spec, digest_eq};
use crate::bytes::{le32, get32, lemma_le32, push_bytes, read_u32};

verus! {

/// Length of a checksum tag: 4 bytes of magic and 32 bytes of digest.
pub const CHECKSUM_TAG_LEN: usize = 36;

/// Magic of a checksum tag ("CHS3").
pub const CHECKSUM_MAGIC: u32 = 0x4348_5333;

/// The bytes of a tag.
pub open spec fn tag_bytes(magic: u32, hash: Seq<u8>) -> Seq<u8> {
    le32(magic) + hash
}

/// `data` followed by its checksum tag.
pub open spec fn frame_spec(data: Seq<u8>) -> Seq<u8> {
    data + tag_bytes(CHECKSUM_MAGIC, blake3_spec(data))
}

/// Where the tag of a frame starts.
pub open spec fn tag_start(f: Seq<u8>) -> int {
    f.len() - CHECKSUM_TAG_LEN
}

/// Splits a frame into its data and the digest of its tag.
pub open spec fn split_spec(f: Seq<u8>) -> ExofsResult<(Seq<u8>, Seq<u8>)> {
    if f.len() < CHECKSUM_TAG_LEN {
        Err(ExofsError::InvalidSize)
    } else if get32(f, tag_start(f)) != CHECKSUM_MAGIC {
        Err(ExofsError::BadMagic)
    } else {
        Ok((f.subrange(0, tag_start(f)), f.subrange(tag_start(f) + 4, f.len() as int)))
    }
}

/// Whether the data of a frame matches its digest.
pub open spec fn verify_framed_spec(f: Seq<u8>) -> ExofsResult<bool> {
    match split_spec(f) {
        Err(e) => Err(e),
        Ok(p) => Ok(blake3_spec(p.0) == p.1),
    }
}

/// A frame splits back into its data and the digest of that data.
pub proof fn lemma_frame_split(data: Seq<u8>)
    requires
        blake3_spec(data).len() == 32,
    ensures
        split_spec(frame_spec(data)) == Ok::<(Seq<u8>, Seq<u8>), ExofsError>((data, blake3_spec(data))),
{
    let f = frame_spec(data);
    let t = tag_start(f);
    assert(t == data.len());
    lemma_le32(CHECKSUM_MAGIC);
    assert(f.subrange(t, t + 4) =~= le32(CHECKSUM_MAGIC));
    assert(get32(f, t) == get32(le32(CHECKSUM_MAGIC), 0));
    assert(f.subrange(0, t) =~= data);
    assert(f.subrange(t + 4, f.len() as int) =~= blake3_spec(data));
}

/// Framing then verifying always succeeds: the digest in the tag is the
/// digest of the data.
pub proof fn lemma_framed_verifies(data: Seq<u8>)
    requires
        blake3_spec(data).len() == 32,
    ensures
        verify_framed_spec(frame_spec(data)) == Ok::<bool, ExofsError>(true),
{
    lemma_frame_split(data);
}

/// The bytes of a tag read back as that tag: long enough, the checksum magic
/// first, then the digest.
pub proof fn lemma_tag_roundtrip(hash: Seq<u8>)
    requires
        hash.len() == 32,
    ensures
        tag_bytes(CHECKSUM_MAGIC, hash).len() == CHECKSUM_TAG_LEN,
        get32(tag_bytes(CHECKSUM_MAGIC, hash), 0) == CHECKSUM_MAGIC,
        tag_bytes(CHECKSUM_MAGIC, hash).subrange(4, 36) == hash,
{
    let b = tag_bytes(CHECKSUM_MAGIC, hash);
    lemma_le32(CHECKSUM_MAGIC);
    assert(b.subrange(0, 4) == le32(CHECKSUM_MAGIC));
    assert(b[0] == le32(CHECKSUM_MAGIC)[0] && b[1] == le32(CHECKSUM_MAGIC)[1]);
    assert(b[2] == le32(CHECKSUM_MAGIC)[2] && b[3] == le32(CHECKSUM_MAGIC)[3]);
    assert(b.subrange(4, 36) =~= hash);
}

/// A checksum tag.
#[derive(Clone, Copy, Debug)]
pub struct ChecksumTag {
    pub magic: u32,
    pub hash: [u8; 32],
}

impl ChecksumTag {
    /// The tag of digest `hash`.
    pub fn new(hash: [u8; 32]) -> (r: ChecksumTag)
        ensures
            r.magic == CHECKSUM_MAGIC,
            r.hash@ == hash@,
    {
        ChecksumTag { magic: CHECKSUM_MAGIC, hash }
    }

    /// The 36 bytes of the tag.
    pub fn to_bytes(&self) -> (r: [u8; CHECKSUM_TAG_LEN])
        ensures
            r@ == tag_bytes(self.magic, self.hash@),
    {
        let m = self.magic;
        let h = &self.hash;
        let r: [u8; CHECKSUM_TAG_LEN] = [
            (m & 0xff) as u8, ((m >> 8) & 0xff) as u8, ((m >> 16) & 0xff) as u8, (m >> 24) as u8,
            h[0], h[1], h[2], h[3], h[4], h[5], h[6], h[7], h[8], h[9], h[10], h[11], h[12], h[13], h[14], h[15], h[16], h[17], h[18], h[19], h[20], h[21], h[22], h[23], h[24], h[25], h[26], h[27], h[28], h[29], h[30], h[31],
        ];
        proof {
            assert(r@ =~= tag_bytes(self.magic, self.hash@));
        }
        r
    }

    /// Parses a tag from the first 36 bytes of `b`.
    pub fn from_bytes(b: &[u8]) -> (r: ExofsResult<ChecksumTag>)
        ensures
            b@.len() < CHECKSUM_TAG_LEN ==> r == Err::<ChecksumTag, ExofsError>(ExofsError::InvalidSize),
            b@.len() >= CHECKSUM_TAG_LEN && get32(b@, 0) != CHECKSUM_MAGIC ==> r == Err::<ChecksumTag, ExofsError>(ExofsError::BadMagic),
            b@.len() >= CHECKSUM_TAG_LEN && get32(b@, 0) == CHECKSUM_MAGIC ==> (r matches Ok(t) && t.magic == CHECKSUM_MAGIC
                && t.hash@ == b@.subrange(4, 36)),
    {
        if b.len() < CHECKSUM_TAG_LEN {
            return Err(ExofsError::InvalidSize);
        }
        let magic = read_u32(b, 0);
        if magic != CHECKSUM_MAGIC {
            return Err(ExofsError::BadMagic);
        }
        let hash = digest_at(b, 4);
        Ok(ChecksumTag { magic, hash })
    }
}

/// The 32 bytes of `b` from `at`.
pub fn digest_at(b: &[u8], at: usize) -> (r: [u8; 32])
    requires
        at + 32 <= b@.len(),
    ensures
        r@ == b@.subrange(at as int, at + 32),
{
    let r: [u8; 32] = [
        b[at], b[at + 1], b[at + 2], b[at + 3], b[at + 4], b[at + 5], b[at + 6], b[at + 7],
        b[at + 8], b[at + 9], b[at + 10], b[at + 11], b[at + 12], b[at + 13], b[at + 14], b[at + 15],
        b[at + 16], b[at + 17], b[at + 18], b[at + 19], b[at + 20], b[at + 21], b[at + 22], b[at + 23],
        b[at + 24], b[at + 25], b[at + 26], b[at + 27], b[at + 28], b[at + 29], b[at + 30], b[at + 31],
    ];
    proof {
        assert(r@ =~= b@.subrange(at as int, at + 32));
    }
    r
}

struct Blake3State {
    buf: Vec<u8>,
}

impl Blake3State {
    fn new() -> (r: Blake3State)
        ensures
            r.buf@ == Seq::<u8>::empty(),
    {
        Blake3State { buf: Vec::new() }
    }

    fn feed(&mut self, data: &[u8]) -> (r: ExofsResult<()>)
        ensures
            final(self).buf@ == old(self).buf@ + data@,
            r == Ok::<(), ExofsError>(()),
    {
        push_bytes(&mut self.buf, data);
        Ok(())
    }

    fn digest(&self) -> (r: [u8; 32])
        ensures
            r@ == blake3_spec(self.buf@),
    {
        blake3_hash(self.buf.as_slice())
    }

    fn len(&self) -> (r: usize)
        ensures
            r == self.buf@.len(),
    {
        self.buf.len()
    }
}

/// State of a writer.
#[derive(Clone, Copy, Debug, PartialEq, Eq, Structural)]
pub enum WriterState {
    Open,
    Finalized,
}

/// Accumulates data and produces it with its checksum.
pub struct ChecksumWriter {
    state: Blake3State,
    status: WriterState,
}

/// Data with its digest and tag.
pub struct ChecksumResult {
    pub data: Vec<u8>,
    pub tag: ChecksumTag,
    pub hash: [u8; 32],
    pub bytes: u64,
}

impl ChecksumResult {
    /// The data followed by the bytes of the tag.
    pub fn framed(&self) -> (r: ExofsResult<Vec<u8>>)
        ensures
            self.data@.len() + CHECKSUM_TAG_LEN > usize::MAX ==> r == Err::<Vec<u8>, ExofsError>(ExofsError::Overflow),
            self.data@.len() + CHECKSUM_TAG_LEN <= usize::MAX ==> (r matches Ok(v)
                && v@ == self.data@ + tag_bytes(self.tag.magic, self.tag.hash@)),
    {
        if self.data.len().checked_add(CHECKSUM_TAG_LEN).is_none() {
            return Err(ExofsError::Overflow);
        }
        let mut out: Vec<u8> = Vec::new();
        push_bytes(&mut out, self.data.as_slice());
        let t = self.tag.to_bytes();
        push_bytes(&mut out, &t);
        Ok(out)
    }
}

/// Sum of the lengths of the first `k` chunks.
pub open spec fn chunks_len(c: Seq<&[u8]>, k: int) -> int
    decreases k,
{
    if k <= 0 { 0 } else { chunks_len(c, k - 1) + c[k - 1]@.len() }
}

/// The bytes of the first `k` chunks, in order.
pub open spec fn chunks_concat(c: Seq<&[u8]>, k: int) -> Seq<u8>
    decreases k,
{
    if k <= 0 { Seq::empty() } else { chunks_concat(c, k - 1) + c[k - 1]@ }
}

impl ChecksumWriter {
    /// Bytes written so far.
    pub closed spec fn data(&self) -> Seq<u8> {
        self.state.buf@
    }

    /// True once finalized.
    pub closed spec fn finalized(&self) -> bool {
        self.status == WriterState::Finalized
    }

    /// An open writer with no data.
    pub fn new() -> (r: ChecksumWriter)
        ensures
            r.data() == Seq::<u8>::empty(),
            !r.finalized(),
    {
        ChecksumWriter { state: Blake3State::new(), status: WriterState::Open }
    }

    /// An open writer with room for `capacity` bytes.
    pub fn with_capacity(capacity: usize) -> (r: ExofsResult<ChecksumWriter>)
        ensures
            r matches Ok(w) && w.data() == Seq::<u8>::empty() && !w.finalized(),
    {
        let buf: Vec<u8> = Vec::with_capacity(capacity);
        Ok(ChecksumWriter { state: Blake3State { buf }, status: WriterState::Open })
    }

    /// Appends `data`; returns its length.
    pub fn write(&mut self, data: &[u8]) -> (r: ExofsResult<usize>)
        ensures
            old(self).finalized() ==> r == Err::<usize, ExofsError>(ExofsError::InvalidState) && final(self).data() == old(self).data()
                && final(self).finalized(),
            !old(self).finalized() ==> r == Ok::<usize, ExofsError>(data@.len() as usize) && final(self).data() == old(self).data() + data@
                && !final(self).finalized(),
    {
        if self.status == WriterState::Finalized {
            return Err(ExofsError::InvalidState);
        }
        self.state.feed(data)?;
        Ok(data.len())
    }

    /// Appends every chunk in order; returns the total length, or `Overflow`
    /// once the running total no longer fits in 64 bits.
    pub fn write_all(&mut self, chunks: &[&[u8]]) -> (r: ExofsResult<u64>)
        ensures
            final(self).finalized() == old(self).finalized(),
            old(self).finalized() && chunks@.len() > 0 ==> r == Err::<u64, ExofsError>(ExofsError::InvalidState)
                && final(self).data() == old(self).data(),
            !old(self).finalized() && chunks_len(chunks@, chunks@.len() as int) <= u64::MAX ==>
                r == Ok::<u64, ExofsError>(chunks_len(chunks@, chunks@.len() as int) as u64)
                && final(self).data() == old(self).data() + chunks_concat(chunks@, chunks@.len() as int),
            !old(self).finalized() && chunks_len(chunks@, chunks@.len() as int) > u64::MAX ==>
                r == Err::<u64, ExofsError>(ExofsError::Overflow),
    {
        let mut total: u64 = 0;
        let mut i: usize = 0;
        while i < chunks.len()
            invariant
                0 <= i <= chunks@.len(),
                self.finalized() == old(self).finalized(),
                old(self).finalized() ==> i == 0 && self.data() == old(self).data(),
                !old(self).finalized() ==> self.data() == old(self).data() + chunks_concat(chunks@, i as int),
                total == chunks_len(chunks@, i as int),
            decreases chunks.len() - i,
        {
            let c = chunks[i];
            assert(c@ == chunks@[i as int]@ && c@.len() == c.len());
            let n = self.write(c)?;
            proof {
                lemma_chunks_len_mono(chunks@, i + 1, chunks@.len() as int);
                assert(chunks_len(chunks@, i + 1) == chunks_len(chunks@, i as int) + n);
            }
            total = match total.checked_add(n as u64) {
                Some(t) => t,
                None => {
                    proof {
                        lemma_chunks_len_mono(chunks@, i + 1, chunks@.len() as int);
                    }
                    return Err(ExofsError::Overflow);
                },
            };
            i += 1;
        }
        Ok(total)
    }

    /// Ends the writer: the data, its digest and its tag.
    pub fn finalize(self) -> (r: ExofsResult<ChecksumResult>)
        ensures
            self.finalized() ==> r == Err::<ChecksumResult, ExofsError>(ExofsError::InvalidState),
            !self.finalized() ==> (r matches Ok(c) && c.data@ == self.data() && c.hash@ == blake3_spec(self.data())
                && c.tag.magic == CHECKSUM_MAGIC && c.tag.hash@ == blake3_spec(self.data()) && c.bytes == self.data().len()),
    {
        if self.status == WriterState::Finalized {
            return Err(ExofsError::InvalidState);
        }
        let hash = self.state.digest();
        let tag = ChecksumTag::new(hash);
        let bytes = self.state.len() as u64;
        let data = self.state.buf;
        Ok(ChecksumResult { data, tag, hash, bytes })
    }

    /// Bytes written so far.
    pub fn byte_count(&self) -> (r: u64)
        ensures
            r == self.data().len(),
    {
        self.state.len() as u64
    }

    /// True once finalized.
    pub fn is_finalized(&self) -> (r: bool)
        ensures
            r == self.finalized(),
    {
        self.status == WriterState::Finalized
    }
}

proof fn lemma_chunks_len_mono(c: Seq<&[u8]>, i: int, j: int)
    requires
        0 <= i <= j <= c.len(),
    ensures
        chunks_len(c, i) <= chunks_len(c, j),
        chunks_len(c, i) >= 0,
    decreases j,
{
    if j > i {
        lemma_chunks_len_mono(c, i, j - 1);
    } else if i > 0 {
        lemma_chunks_len_mono(c, i - 1, i - 1);
    }
}

impl Default for ChecksumWriter {
    fn default() -> (r: ChecksumWriter)
        ensures
            r.data() == Seq::<u8>::empty(),
            !r.finalized(),
    {
        ChecksumWriter::new()
    }
}

/// Appends the checksum tag of `buf` to it; returns the digest.
pub fn append_checksum(buf: &mut Vec<u8>) -> (r: ExofsResult<[u8; 32]>)
    ensures
        final(buf)@ == frame_spec(old(buf)@),
        r matches Ok(h) && h@ == blake3_spec(old(buf)@),
{
    let hash = blake3_hash(buf.as_slice());
    let tag = ChecksumTag::new(hash);
    let raw = tag.to_bytes();
    push_bytes(buf, &raw);
    Ok(hash)
}

/// Digest of `data`.
pub fn compute_checksum(data: &[u8]) -> (r: [u8; 32])
    ensures
        r@ == blake3_spec(data@),
{
    blake3_hash(data)
}

/// True iff the digest of `data` is `expected`.
pub fn verify_checksum(data: &[u8], expected: &[u8; 32]) -> (r: bool)
    ensures
        r == (blake3_spec(data@) == expected@),
{
    let got = blake3_hash(data);
    digest_eq(&got, expected)
}

/// Splits a frame into its data and its tag.
pub fn split_framed(framed: &[u8]) -> (r: ExofsResult<(&[u8], ChecksumTag)>)
    ensures
        split_spec(framed@) matches Err(e) ==> r == Err::<(&[u8], ChecksumTag), ExofsError>(e),
        split_spec(framed@) matches Ok(p) ==> (r matches Ok(q) && q.0@ == p.0 && q.1.hash@ == p.1
            && q.1.magic == CHECKSUM_MAGIC),
{
    if framed.len() < CHECKSUM_TAG_LEN {
        return Err(ExofsError::InvalidSize);
    }
    let data_end = framed.len() - CHECKSUM_TAG_LEN;
    let tail = vstd::slice::slice_subrange(framed, data_end, framed.len());
    proof {
        assert(get32(tail@, 0) == get32(framed@, data_end as int));
        assert(tail@.subrange(4, 36) =~= framed@.subrange(data_end + 4, framed@.len() as int));
    }
    let tag = ChecksumTag::from_bytes(tail)?;
    Ok((vstd::slice::slice_subrange(framed, 0, data_end), tag))
}

/// Whether the data of a frame matches the digest of its tag.
pub fn verify_framed(framed: &[u8]) -> (r: ExofsResult<bool>)
    ensures
        r == verify_framed_spec(framed@),
{
    let (data, tag) = split_framed(framed)?;
    Ok(verify_checksum(data, &tag.hash))
}

/// Digest of a block, recorded at its offset.
#[derive(Clone, Copy, Debug)]
pub struct BlockChecksumEntry {
    pub offset: DiskOffset,
    pub hash: [u8; 32],
    pub valid: bool,
}

/// Index of the first entry at `off`.
pub open spec fn first_entry(es: Seq<BlockChecksumEntry>, off: DiskOffset, i: int) -> bool {
    0 <= i < es.len() && es[i].offset == off && forall|j: int| 0 <= j < i ==> #[trigger] es[j].offset != off
}

/// No entry at `off`.
pub open spec fn no_entry_at(es: Seq<BlockChecksumEntry>, off: DiskOffset) -> bool {
    forall|j: int| 0 <= j < es.len() ==> #[trigger] es[j].offset != off
}

/// Number of entries among the first `k` whose validity is `v`.
pub open spec fn count_valid(es: Seq<BlockChecksumEntry>, v: bool, k: int) -> nat
    decreases k,
{
    if k <= 0 { 0 } else { count_valid(es, v, k - 1) + (if es[k - 1].valid == v { 1nat } else { 0nat }) }
}

/// Digests of blocks by offset.
pub struct BlockChecksumMap {
    entries: Vec<BlockChecksumEntry>,
}

impl View for BlockChecksumMap {
    type V = Seq<BlockChecksumEntry>;

    closed spec fn view(&self) -> Seq<BlockChecksumEntry> {
        self.entries@
    }
}

impl BlockChecksumMap {
    /// An empty map.
    pub fn new() -> (r: BlockChecksumMap)
        ensures
            r@ == Seq::<BlockChecksumEntry>::empty(),
    {
        BlockChecksumMap { entries: Vec::new() }
    }

    /// An empty map with room for `cap` entries.
    pub fn with_capacity(cap: usize) -> (r: ExofsResult<BlockChecksumMap>)
        ensures
            r matches Ok(m) && m@ == Seq::<BlockChecksumEntry>::empty(),
    {
        Ok(BlockChecksumMap { entries: Vec::with_capacity(cap) })
    }

    fn find(&self, offset: DiskOffset) -> (r: Option<usize>)
        ensures
            r matches Some(i) ==> first_entry(self@, offset, i as int),
            r is None ==> no_entry_at(self@, offset),
    {
        let mut i: usize = 0;
        while i < self.entries.len()
            invariant
                forall|j: int| 0 <= j < i ==> #[trigger] self@[j].offset != offset,
            decreases self.entries.len() - i,
        {
            if self.entries[i].offset == offset {
                return Some(i);
            }
            i += 1;
        }
        None
    }

    /// Records the digest of `data` at `offset` (replacing the first entry at
    /// that offset, else appending one); returns the digest.
    pub fn record(&mut self, offset: DiskOffset, data: &[u8]) -> (r: ExofsResult<[u8; 32]>)
        ensures
            r matches Ok(h) && h@ == blake3_spec(data@),
            forall|i: int| #[trigger] first_entry(old(self)@, offset, i) ==> final(self)@.len() == old(self)@.len()
                && final(self)@[i].valid && final(self)@[i].hash@ == blake3_spec(data@) && final(self)@[i].offset == offset
                && forall|j: int| 0 <= j < old(self)@.len() && j != i ==> final(self)@[j] == old(self)@[j],
            no_entry_at(old(self)@, offset) ==> final(self)@.len() == old(self)@.len() + 1
                && final(self)@.last().valid && final(self)@.last().hash@ == blake3_spec(data@)
                && final(self)@.last().offset == offset
                && forall|j: int| 0 <= j < old(self)@.len() ==> final(self)@[j] == old(self)@[j],
    {
        let hash = blake3_hash(data);
        match self.find(offset) {
            Some(i) => {
                proof {
                    assert forall|k: int| #[trigger] first_entry(old(self)@, offset, k) implies k == i by {
                        if k < i {
                        } else if k > i {
                            assert(old(self)@[i as int].offset == offset);
                        }
                    }
                }
                self.entries.set(i, BlockChecksumEntry { offset, hash, valid: true });
            },
            None => {
                self.entries.push(BlockChecksumEntry { offset, hash, valid: true });
            },
        }
        Ok(hash)
    }

    /// Checks `data` against the first entry at `offset`.
    pub fn verify(&self, offset: DiskOffset, data: &[u8]) -> (r: ExofsResult<bool>)
        ensures
            no_entry_at(self@, offset) ==> r == Err::<bool, ExofsError>(ExofsError::NotFound),
            forall|i: int| #[trigger] first_entry(self@, offset, i) ==> {
                &&& !self@[i].valid ==> r == Err::<bool, ExofsError>(ExofsError::InvalidState)
                &&& self@[i].valid ==> r == Ok::<bool, ExofsError>(blake3_spec(data@) == self@[i].hash@)
            },
    {
        match self.find(offset) {
            Some(i) => {
                proof {
                    assert forall|k: int| #[trigger] first_entry(self@, offset, k) implies k == i by {
                        if k < i {
                        } else if k > i {
                            assert(self@[i as int].offset == offset);
                        }
                    }
                }
                if !self.entries[i].valid {
                    return Err(ExofsError::InvalidState);
                }
                Ok(verify_checksum(data, &self.entries[i].hash))
            },
            None => Err(ExofsError::NotFound),
        }
    }

    /// Marks every entry at `offset` invalid.
    pub fn invalidate(&mut self, offset: DiskOffset)
        ensures
            final(self)@.len() == old(self)@.len(),
            forall|j: int| 0 <= j < old(self)@.len() ==> #[trigger] final(self)@[j] == (if old(self)@[j].offset == offset {
                BlockChecksumEntry { valid: false, ..old(self)@[j] }
            } else {
                old(self)@[j]
            }),
    {
        let mut i: usize = 0;
        while i < self.entries.len()
            invariant
                self@.len() == old(self)@.len(),
                0 <= i <= self@.len(),
                forall|j: int| 0 <= j < i ==> #[trigger] self@[j] == (if old(self)@[j].offset == offset {
                    BlockChecksumEntry { valid: false, ..old(self)@[j] }
                } else {
                    old(self)@[j]
                }),
                forall|j: int| i <= j < self@.len() ==> #[trigger] self@[j] == old(self)@[j],
            decreases self.entries.len() - i,
        {
            let e = self.entries[i];
            if e.offset == offset {
                self.entries.set(i, BlockChecksumEntry { valid: false, ..e });
            }
            i += 1;
        }
    }

    /// Number of entries.
    pub fn entry_count(&self) -> (r: usize)
        ensures
            r == self@.len(),
    {
        self.entries.len()
    }

    fn count(&self, v: bool) -> (r: usize)
        ensures
            r == count_valid(self@, v, self@.len() as int),
    {
        let mut n: usize = 0;
        let mut i: usize = 0;
        while i < self.entries.len()
            invariant
                0 <= i <= self@.len(),
                n == count_valid(self@, v, i as int),
                n <= i,
            decreases self.entries.len() - i,
        {
            if self.entries[i].valid == v {
                n += 1;
            }
            i += 1;
        }
        n
    }

    /// Number of valid entries.
    pub fn valid_count(&self) -> (r: usize)
        ensures
            r == count_valid(self@, true, self@.len() as int),
    {
        self.count(true)
    }

    /// Number of invalid entries.
    pub fn invalid_count(&self) -> (r: usize)
        ensures
            r == count_valid(self@, false, self@.len() as int),
    {
        self.count(false)
    }

    /// True iff some entry is at `off`.
    pub fn contains(&self, off: DiskOffset) -> (r: bool)
        ensures
            r == !no_entry_at(self@, off),
    {
        self.find(off).is_some()
    }

    /// Offsets of the invalid entries, in order.
    pub fn invalid_offsets(&self) -> (r: Vec<DiskOffset>)
        ensures
            r@ == self@.filter(|e: BlockChecksumEntry| !e.valid).map_values(|e: BlockChecksumEntry| e.offset),
    {
        let mut out: Vec<DiskOffset> = Vec::new();
        let mut i: usize = 0;
        while i < self.entries.len()
            invariant
                0 <= i <= self@.len(),
                out@ == self@.subrange(0, i as int).filter(|e: BlockChecksumEntry| !e.valid).map_values(|e: BlockChecksumEntry| e.offset),
            decreases self.entries.len() - i,
        {
            proof {
                assert(self@.subrange(0, i + 1).drop_last() == self@.subrange(0, i as int));
                reveal(Seq::filter);
            }
            if !self.entries[i].valid {
                let ghost before = out@;
                out.push(self.entries[i].offset);
                proof {
                    let f = self@.subrange(0, i as int).filter(|e: BlockChecksumEntry| !e.valid);
                    assert(self@.subrange(0, i + 1).filter(|e: BlockChecksumEntry| !e.valid) == f.push(self@[i as int]));
                    assert(f.push(self@[i as int]).map_values(|e: BlockChecksumEntry| e.offset) =~= f.map_values(|e: BlockChecksumEntry| e.offset).push(self@[i as int].offset));
                }
            }
            i += 1;
        }
        proof {
            assert(self@.subrange(0, self@.len() as int) == self@);
        }
        out
    }
}

/// A digest chained over segments: each segment's digest covers the previous one.
pub struct ChecksumChainer {
    chain_hash: [u8; 32],
    segment: u32,
}

impl ChecksumChainer {
    /// Current digest (spec).
    pub closed spec fn chain(&self) -> Seq<u8> {
        self.chain_hash@
    }

    /// Segments fed so far, modulo 2^32 (spec).
    pub closed spec fn segments(&self) -> u32 {
        self.segment
    }

    /// A chain starting from `iv`.
    pub fn new(iv: [u8; 32]) -> (r: ChecksumChainer)
        ensures
            r.chain() == iv@,
            r.segments() == 0,
    {
        ChecksumChainer { chain_hash: iv, segment: 0 }
    }

    /// Feeds a segment: the new digest is the digest of the previous digest
    /// followed by the segment.
    pub fn feed_segment(&mut self, data: &[u8]) -> (r: ExofsResult<[u8; 32]>)
        ensures
            final(self).chain() == blake3_spec(old(self).chain() + data@),
            final(self).segments() == (if old(self).segments() == u32::MAX { 0 } else { (old(self).segments() + 1) as u32 }),
            r matches Ok(h) && h@ == final(self).chain(),
    {
        let mut buf: Vec<u8> = Vec::new();
        push_bytes(&mut buf, &self.chain_hash);
        push_bytes(&mut buf, data);
        let new_hash = blake3_hash(buf.as_slice());
        self.chain_hash = new_hash;
        self.segment = self.segment.wrapping_add(1);
        Ok(new_hash)
    }

    /// Current digest.
    pub fn current_hash(&self) -> (r: [u8; 32])
        ensures
            r@ == self.chain(),
    {
        self.chain_hash
    }

    /// Segments fed so far (modulo 2^32).
    pub fn segment_index(&self) -> (r: u32)
        ensures
            r == self.segments(),
    {
        self.segment
    }
}

} // verus!
