//! Export of a snapshot as a stream of chunks: each chunk is a 64-byte
//! header (magic checked first, then a Blake3 checksum) and a payload that
//! carries the manifest of the snapshot or a piece of a blob.
use vstd::prelude::*;
use crate::types::{BlobId, ExofsError, ExofsResult, SnapshotId};
use crate::hash::{blake3_hash, blake3_spec, blob_id_spec, compute_blob_id};
use crate::bytes::{le32, le64, push_u32, push_u64, push_bytes};
use crate::snapshot::snapshot::{flags, Snapshot};
use crate::snapshot::snapshot_list::{first_of, has_key, SnapshotList, SnapshotListView};
use crate::snapshot::snapshot_restore::{last_data, listed};

verus! {

/// Magic of a chunk header: "STRM".
pub const STREAM_MAGIC: u32 = 0x5354_524D;
/// Bytes of a chunk header; the checksum takes the last 4.
pub const STREAM_CHUNK_HDR_SIZE: usize = 64;
/// Chunk carrying the manifest of the snapshot.
pub const CHUNK_TYPE_MANIFEST: u8 = 0x01;
/// Chunk carrying (a piece of) a blob.
pub const CHUNK_TYPE_BLOB: u8 = 0x02;
/// Last chunk of a stream.
pub const CHUNK_TYPE_END: u8 = 0xFF;
/// Format version written in new headers.
pub const STREAM_FORMAT_VERSION: u8 = 1;

/// Header of a chunk.
#[derive(Clone, Copy)]
pub struct StreamChunkHeader {
    pub magic: u32,
    pub version: u8,
    pub chunk_type: u8,
    pub _pad0: [u8; 2],
    /// Sequence number of the chunk in the streamer.
    pub seq: u64,
    pub snap_id: u64,
    /// The blob carried, or the root of the snapshot for a manifest.
    pub blob_id: [u8; 32],
    pub payload_len: u32,
    /// The first 4 bytes of the digest of the first 60 bytes of the header.
    pub checksum: [u8; 4],
}

/// The first 60 bytes of the serialized header: every field but the
/// checksum, little-endian, in order.
pub open spec fn chunk_prefix(h: StreamChunkHeader) -> Seq<u8> {
    le32(h.magic) + seq![h.version, h.chunk_type] + h._pad0@ + le64(h.seq) + le64(h.snap_id) + h.blob_id@
        + le32(h.payload_len)
}

/// The serialized header.
pub open spec fn chunk_image(h: StreamChunkHeader) -> Seq<u8> {
    chunk_prefix(h) + h.checksum@
}

/// The checksum a header should carry.
pub open spec fn chunk_checksum(h: StreamChunkHeader) -> Seq<u8> {
    blake3_spec(chunk_prefix(h)).subrange(0, 4)
}

/// What checking a header gives: the magic first, then the version, then
/// the checksum.
pub open spec fn chunk_check(h: StreamChunkHeader) -> ExofsResult<()> {
    if h.magic != STREAM_MAGIC {
        Err(ExofsError::BadMagic)
    } else if h.version != STREAM_FORMAT_VERSION {
        Err(ExofsError::InvalidArgument)
    } else if h.checksum@ != chunk_checksum(h) {
        Err(ExofsError::ChecksumMismatch)
    } else {
        Ok(())
    }
}

impl StreamChunkHeader {
    fn prefix_bytes(&self) -> (r: Vec<u8>)
        ensures
            r@ == chunk_prefix(*self),
            r@.len() == 60,
    {
        let mut out: Vec<u8> = Vec::new();
        push_u32(&mut out, self.magic);
        out.push(self.version);
        out.push(self.chunk_type);
        push_bytes(&mut out, self._pad0.as_slice());
        push_u64(&mut out, self.seq);
        push_u64(&mut out, self.snap_id);
        push_bytes(&mut out, self.blob_id.as_slice());
        push_u32(&mut out, self.payload_len);
        proof {
            assert(out@ =~= chunk_prefix(*self));
        }
        out
    }

    /// The checksum of the header's first 60 bytes.
    pub fn compute_checksum(&self) -> (r: [u8; 4])
        ensures
            r@ == chunk_checksum(*self),
    {
        let body = self.prefix_bytes();
        let h = blake3_hash(body.as_slice());
        let r: [u8; 4] = [h[0], h[1], h[2], h[3]];
        proof {
            assert(r@ =~= h@.subrange(0, 4));
        }
        r
    }

    /// Stores the checksum of the other fields.
    pub fn finalize(&mut self)
        ensures
            *final(self) == (StreamChunkHeader { checksum: final(self).checksum, ..*old(self) }),
            final(self).checksum@ == chunk_checksum(*old(self)),
            final(self).checksum@ == chunk_checksum(*final(self)),
    {
        self.checksum = self.compute_checksum();
        proof {
            assert(chunk_prefix(*final(self)) =~= chunk_prefix(*old(self)));
        }
    }

    /// Checks the magic first, then the version, then the checksum.
    pub fn verify(&self) -> (r: ExofsResult<()>)
        ensures
            r == chunk_check(*self),
    {
        if self.magic != STREAM_MAGIC {
            return Err(ExofsError::BadMagic);
        }
        if self.version != STREAM_FORMAT_VERSION {
            return Err(ExofsError::InvalidArgument);
        }
        let expected = self.compute_checksum();
        let mut same = true;
        let mut i: usize = 0;
        while i < 4
            invariant
                0 <= i <= 4,
                expected@.len() == 4,
                same == forall|k: int| 0 <= k < i ==> expected@[k] == self.checksum@[k],
            decreases 4 - i,
        {
            if expected[i] != self.checksum[i] {
                same = false;
            }
            i += 1;
        }
        if !same {
            return Err(ExofsError::ChecksumMismatch);
        }
        proof {
            assert(expected@ =~= self.checksum@);
        }
        Ok(())
    }

    /// The 64 bytes of the header.
    pub fn as_bytes(&self) -> (r: Vec<u8>)
        ensures
            r@ == chunk_image(*self),
            r@.len() == STREAM_CHUNK_HDR_SIZE,
    {
        let mut out = self.prefix_bytes();
        push_bytes(&mut out, self.checksum.as_slice());
        out
    }
}

/// A call made on a stream writer, with its answer.
pub enum WriterCall {
    Write { data: Seq<u8>, answer: ExofsResult<usize> },
    Flush { answer: ExofsResult<()> },
}

/// Where the stream goes; written by the user of the streamer.
pub trait StreamWriter {
    /// The calls made on the writer so far, each with its answer. An
    /// implementation states it; one that does not leaves it unknown.
    closed spec fn calls(&self) -> Seq<WriterCall> {
        arbitrary()
    }

    /// Writes `data` and returns how many bytes were written.
    fn write(&mut self, data: &[u8]) -> (r: ExofsResult<usize>)
        ensures
            final(self).calls() == old(self).calls().push(WriterCall::Write { data: data@, answer: r }),
    ;

    fn flush(&mut self) -> (r: ExofsResult<()>)
        ensures
            final(self).calls() == old(self).calls().push(WriterCall::Flush { answer: r }),
    ;
}

/// A writer that appends to a vector.
pub struct VecStreamWriter {
    pub buf: Vec<u8>,
    /// The calls received.
    pub log: Ghost<Seq<WriterCall>>,
}

impl VecStreamWriter {
    /// An empty writer.
    pub fn new() -> (r: VecStreamWriter)
        ensures
            r.buf@.len() == 0,
            r.calls() == Seq::<WriterCall>::empty(),
    {
        VecStreamWriter { buf: Vec::new(), log: Ghost(Seq::empty()) }
    }
}

impl StreamWriter for VecStreamWriter {
    closed spec fn calls(&self) -> Seq<WriterCall> {
        self.log@
    }

    fn write(&mut self, data: &[u8]) -> (r: ExofsResult<usize>)
        ensures
            final(self).buf@ == old(self).buf@ + data@,
            r == Ok::<usize, ExofsError>(data@.len() as usize),
    {
        push_bytes(&mut self.buf, data);
        let r: ExofsResult<usize> = Ok(data.len());
        self.log = Ghost(self.log@.push(WriterCall::Write { data: data@, answer: r }));
        r
    }

    fn flush(&mut self) -> (r: ExofsResult<()>)
        ensures
            r is Ok,
            final(self).buf@ == old(self).buf@,
    {
        self.log = Ghost(self.log@.push(WriterCall::Flush { answer: Ok(()) }));
        Ok(())
    }
}

/// How to stream.
#[derive(Clone, Copy, Debug)]
pub struct StreamOptions {
    /// Largest payload of a blob chunk.
    pub chunk_size: usize,
    /// Send the manifest first.
    pub with_manifest: bool,
    /// Send an end chunk last.
    pub with_end_marker: bool,
}

impl Default for StreamOptions {
    fn default() -> (r: StreamOptions)
        ensures
            r == (StreamOptions { chunk_size: 65536, with_manifest: true, with_end_marker: true }),
    {
        StreamOptions { chunk_size: 64 * 1024, with_manifest: true, with_end_marker: true }
    }
}

/// What a stream did; one chunk is counted per blob, whatever pieces it
/// was sent in.
#[derive(Clone, Copy, Debug)]
pub struct StreamResult {
    pub snap_id: SnapshotId,
    pub n_chunks: u64,
    pub n_blobs: u64,
    pub bytes_sent: u64,
    /// The streamer was aborted before a blob.
    pub aborted: bool,
}

/// What holds of every result handed back by a stream of `snap_id`: the
/// chunks counted are the manifest, one per blob and the end chunk, as the
/// options ask, the end chunk missing only when the stream was aborted,
/// and an aborted streamer sends no blob.
pub open spec fn stream_sane(res: StreamResult, snap_id: SnapshotId, opts: StreamOptions, aborted: bool) -> bool {
    &&& res.snap_id == snap_id
    &&& res.n_chunks == res.n_blobs + (if opts.with_manifest { 1int } else { 0int }) + (if opts.with_end_marker
        && !res.aborted { 1int } else { 0int })
    &&& res.aborted ==> aborted
    &&& aborted ==> res.n_blobs == 0
}

/// What a successful stream of `snap_id` from `source` sent of the listed
/// blobs: all of them, each read without error, unless the streamer was
/// aborted before the first one, in which case none.
pub open spec fn stream_blobs_sent<S: StreamBlobSource>(source: S, snap_id: SnapshotId, res: StreamResult, aborted: bool) -> bool {
    match source.blobs_listed(snap_id) {
        Err(_) => false,
        Ok(ids) => {
            &&& (aborted && ids.len() > 0) == res.aborted
            &&& res.aborted ==> res.n_blobs == 0
            &&& !res.aborted ==> res.n_blobs == ids.len() && forall|k: int| 0 <= k < ids.len() ==> (#[trigger] source.blob(snap_id, ids[k])) is Ok
        },
    }
}

/// `x`, capped at `m`.
pub open spec fn capped(x: int, m: int) -> int {
    if x > m { m } else { x }
}

/// Bytes on the wire for a blob of `len` bytes cut into chunks of at most
/// `cs` bytes: a header per chunk, then the data; an empty blob is one
/// header alone.
pub open spec fn blob_wire_bytes(len: nat, cs: nat) -> int
    decreases len,
{
    if len <= cs || cs == 0 {
        STREAM_CHUNK_HDR_SIZE + len
    } else {
        STREAM_CHUNK_HDR_SIZE + cs + blob_wire_bytes((len - cs) as nat, cs)
    }
}

/// Bytes on the wire for the blobs `ids` of `snap_id`, each counted up to
/// `usize::MAX`.
pub open spec fn blobs_wire_bytes<S: StreamBlobSource>(source: S, snap_id: SnapshotId, ids: Seq<BlobId>, cs: nat) -> int
    decreases ids.len(),
{
    if ids.len() == 0 {
        0
    } else {
        blobs_wire_bytes(source, snap_id, ids.drop_last(), cs) + match source.blob(snap_id, ids.last()) {
            Ok(d) => capped(blob_wire_bytes(d.len(), cs), usize::MAX as int),
            Err(_) => 0,
        }
    }
}

/// Bytes of the manifest chunk: a header and 48 bytes of payload.
pub open spec fn manifest_wire_bytes() -> int {
    STREAM_CHUNK_HDR_SIZE + 48
}

/// What a successful stream counted as sent: the manifest when asked for,
/// then, unless aborted, every listed blob and the end marker when asked
/// for; capped at `u64::MAX`.
pub open spec fn stream_bytes_counted<S: StreamBlobSource>(source: S, snap_id: SnapshotId, res: StreamResult, opts: StreamOptions) -> bool {
    match source.blobs_listed(snap_id) {
        Err(_) => false,
        Ok(ids) => res.bytes_sent == capped(
            (if opts.with_manifest { manifest_wire_bytes() } else { 0int }) + (if res.aborted { 0int } else {
                blobs_wire_bytes(source, snap_id, ids, opts.chunk_size as nat) + (if opts.with_end_marker {
                    STREAM_CHUNK_HDR_SIZE as int
                } else { 0int })
            }),
            u64::MAX as int,
        ),
    }
}

/// A chunk to send: its type, the identifier in its header and its payload.
pub struct ChunkDesc {
    pub chunk_type: u8,
    pub id: Seq<u8>,
    pub payload: Seq<u8>,
}

/// The sequence number after `s`, wrapping.
pub open spec fn seq_next(s: u64) -> u64 {
    if s == u64::MAX { 0 } else { (s + 1) as u64 }
}

/// The sequence number `n` chunks after `s`.
pub open spec fn seq_after(s: u64, n: nat) -> u64
    decreases n,
{
    if n == 0 { s } else { seq_after(seq_next(s), (n - 1) as nat) }
}

/// The 64 header bytes of the chunk `d` of snapshot `snap` numbered `s`.
pub open spec fn header_bytes(s: u64, snap: u64, d: ChunkDesc) -> Seq<u8> {
    let p = le32(STREAM_MAGIC) + seq![STREAM_FORMAT_VERSION, d.chunk_type] + seq![0u8, 0u8] + le64(s) + le64(snap) + d.id
        + le32(d.payload.len() as u32);
    p + blake3_spec(p).subrange(0, 4)
}

/// The writes that send the chunk `d` numbered `s`: its header, then its
/// payload when there is one.
pub open spec fn chunk_writes(s: u64, snap: u64, d: ChunkDesc) -> Seq<Seq<u8>> {
    if d.payload.len() == 0 {
        seq![header_bytes(s, snap, d)]
    } else {
        seq![header_bytes(s, snap, d), d.payload]
    }
}

/// The writes that send the chunks `ds` numbered from `s` on.
pub open spec fn stream_writes(s: u64, snap: u64, ds: Seq<ChunkDesc>) -> Seq<Seq<u8>>
    decreases ds.len(),
{
    if ds.len() == 0 {
        Seq::empty()
    } else {
        chunk_writes(s, snap, ds[0]) + stream_writes(seq_next(s), snap, ds.drop_first())
    }
}

/// The chunks of the blob `id` holding `d`, cut in pieces of at most `cs`
/// bytes; an empty blob is one empty chunk.
pub open spec fn blob_chunks(id: BlobId, d: Seq<u8>, cs: nat) -> Seq<ChunkDesc>
    decreases d.len(),
{
    if d.len() <= cs || cs == 0 {
        seq![ChunkDesc { chunk_type: CHUNK_TYPE_BLOB, id: id.0@, payload: d }]
    } else {
        seq![ChunkDesc { chunk_type: CHUNK_TYPE_BLOB, id: id.0@, payload: d.take(cs as int) }] + blob_chunks(id, d.skip(cs as int), cs)
    }
}

/// The chunks of the blobs `ids` of `snap_id` from `source`.
pub open spec fn blobs_chunks<S: StreamBlobSource>(source: S, snap_id: SnapshotId, ids: Seq<BlobId>, cs: nat) -> Seq<ChunkDesc>
    decreases ids.len(),
{
    if ids.len() == 0 {
        Seq::empty()
    } else {
        blobs_chunks(source, snap_id, ids.drop_last(), cs) + match source.blob(snap_id, ids.last()) {
            Ok(d) => blob_chunks(ids.last(), d, cs),
            Err(_) => Seq::empty(),
        }
    }
}

/// The manifest chunk of `snap`: its root, blob count and byte total.
pub open spec fn manifest_chunk(snap: Snapshot) -> ChunkDesc {
    ChunkDesc { chunk_type: CHUNK_TYPE_MANIFEST, id: snap.root_blob.0@, payload: snap.root_blob.0@ + le64(snap.n_blobs) + le64(snap.total_bytes) }
}

/// The end chunk.
pub open spec fn end_chunk() -> ChunkDesc {
    ChunkDesc { chunk_type: CHUNK_TYPE_END, id: Seq::new(32, |i: int| 0u8), payload: Seq::empty() }
}

/// The snapshot of `list` registered under `id` (the first such entry).
pub open spec fn snap_of(list: SnapshotListView, id: SnapshotId) -> Snapshot {
    list.entries[first_of(list.entries, id.0)].1
}

/// The manifest chunk when `opts` asks for one.
pub open spec fn manifest_part(snap: Snapshot, opts: StreamOptions) -> Seq<ChunkDesc> {
    if opts.with_manifest { seq![manifest_chunk(snap)] } else { Seq::empty() }
}

/// The end chunk when `opts` asks for one.
pub open spec fn end_part(opts: StreamOptions) -> Seq<ChunkDesc> {
    if opts.with_end_marker { seq![end_chunk()] } else { Seq::empty() }
}

/// A stream that stopped as aborted sends the manifest part alone; else
/// the manifest part, the chunks of the blobs, then the end part.
pub proof fn lemma_stream_chunks_shape<S: StreamBlobSource>(
    source: S,
    snap_id: SnapshotId,
    snap: Snapshot,
    ids: Seq<BlobId>,
    opts: StreamOptions,
)
    ensures
        stream_chunks(source, snap_id, snap, ids, opts, true) == manifest_part(snap, opts),
        stream_chunks(source, snap_id, snap, ids, opts, false) == (manifest_part(snap, opts) + blobs_chunks(source, snap_id, ids,
            opts.chunk_size as nat)) + end_part(opts),
{
    assert(stream_chunks(source, snap_id, snap, ids, opts, true) =~= manifest_part(snap, opts));
    assert(stream_chunks(source, snap_id, snap, ids, opts, false) =~= (manifest_part(snap, opts) + blobs_chunks(source, snap_id, ids,
        opts.chunk_size as nat)) + end_part(opts));
}

/// The chunks a stream of `snap` sends: the manifest when asked for, then,
/// unless the stream stopped as aborted, the chunks of every listed blob and
/// the end chunk when asked for.
pub open spec fn stream_chunks<S: StreamBlobSource>(
    source: S,
    snap_id: SnapshotId,
    snap: Snapshot,
    ids: Seq<BlobId>,
    opts: StreamOptions,
    stopped: bool,
) -> Seq<ChunkDesc> {
    (if opts.with_manifest { seq![manifest_chunk(snap)] } else { Seq::empty() }) + (if stopped { Seq::empty() } else {
        blobs_chunks(source, snap_id, ids, opts.chunk_size as nat) + (if opts.with_end_marker { seq![end_chunk()] } else {
            Seq::empty()
        })
    })
}

/// The writes of a chunk with header `h` and payload `p`.
pub open spec fn header_then(h: StreamChunkHeader, p: Seq<u8>) -> Seq<Seq<u8>> {
    if p.len() == 0 { seq![chunk_image(h)] } else { seq![chunk_image(h), p] }
}

/// The blobs `source` lists for `snap_id`, none when it fails.
pub open spec fn listed_ids<S: StreamBlobSource>(source: S, snap_id: SnapshotId) -> Seq<BlobId> {
    match source.blobs_listed(snap_id) {
        Ok(ids) => ids,
        Err(_) => Seq::empty(),
    }
}

/// Calls answered in full follow the writes they make.
pub proof fn lemma_ok_writes_follow(w: Seq<Seq<u8>>)
    ensures
        writes_follow(ok_writes(w), w),
{
}

/// The calls that make the writes `w`, each answered in full.
pub open spec fn ok_writes(w: Seq<Seq<u8>>) -> Seq<WriterCall> {
    w.map_values(|d: Seq<u8>| WriterCall::Write { data: d, answer: Ok::<usize, ExofsError>(d.len() as usize) })
}

/// The calls `c` follow the writes `w`: the `k`-th call writes `w[k]`, every
/// write but the last was answered in full, and a flush can only come once
/// every write was made.
pub open spec fn writes_follow(c: Seq<WriterCall>, w: Seq<Seq<u8>>) -> bool {
    &&& c.len() <= w.len() + 1
    &&& forall|k: int| 0 <= k < c.len() ==> match #[trigger] c[k] {
        WriterCall::Write { data, answer } => k < w.len() && data == w[k] && (k < c.len() - 1 ==> answer == Ok::<usize,
            ExofsError>(data.len() as usize)),
        WriterCall::Flush { answer } => k == w.len(),
    }
}

/// A call that was not answered in full.
pub open spec fn answered_short(c: WriterCall) -> bool {
    match c {
        WriterCall::Write { data, answer } => answer != Ok::<usize, ExofsError>(data.len() as usize),
        WriterCall::Flush { answer } => answer is Err,
    }
}

/// Sending the chunks `A` then `B` from `s` on writes what sending `A` from
/// `s` then `B` from after `A` writes.
pub proof fn lemma_stream_writes_concat(s: u64, snap: u64, a: Seq<ChunkDesc>, b: Seq<ChunkDesc>)
    ensures
        stream_writes(s, snap, a + b) == stream_writes(s, snap, a) + stream_writes(seq_after(s, a.len()), snap, b),
    decreases a.len(),
{
    if a.len() == 0 {
        assert(a + b =~= b);
        assert(stream_writes(s, snap, a) + stream_writes(s, snap, b) =~= stream_writes(s, snap, b));
    } else {
        assert((a + b).drop_first() =~= a.drop_first() + b);
        assert((a + b)[0] == a[0]);
        lemma_stream_writes_concat(seq_next(s), snap, a.drop_first(), b);
        assert(seq_after(s, a.len()) == seq_after(seq_next(s), a.drop_first().len()));
        assert(stream_writes(s, snap, a + b) =~= stream_writes(s, snap, a) + stream_writes(seq_after(s, a.len()), snap, b));
    }
}

/// A header built for the chunk `d` numbered `s` serializes to its header
/// bytes.
pub proof fn lemma_header_image(h: StreamChunkHeader, s: u64, snap: u64, d: ChunkDesc)
    requires
        h.magic == STREAM_MAGIC && h.version == STREAM_FORMAT_VERSION && h.chunk_type == d.chunk_type,
        h._pad0@ == seq![0u8, 0u8],
        h.seq == s && h.snap_id == snap && h.blob_id@ == d.id,
        h.payload_len == d.payload.len() as u32,
        h.checksum@ == chunk_checksum(h),
    ensures
        header_then(h, d.payload) == chunk_writes(s, snap, d),
{
    assert(chunk_image(h) == header_bytes(s, snap, d));
}

/// Writes answered in full, then calls that follow more writes, follow
/// all the writes.
pub proof fn lemma_follow_after_ok(w1: Seq<Seq<u8>>, w2: Seq<Seq<u8>>, c2: Seq<WriterCall>)
    requires
        writes_follow(c2, w2),
    ensures
        writes_follow(ok_writes(w1) + c2, w1 + w2),
{
    let c = ok_writes(w1) + c2;
    let w = w1 + w2;
    assert forall|k: int| 0 <= k < c.len() implies match #[trigger] c[k] {
        WriterCall::Write { data, answer } => k < w.len() && data == w[k] && (k < c.len() - 1 ==> answer == Ok::<usize,
            ExofsError>(data.len() as usize)),
        WriterCall::Flush { answer } => k == w.len(),
    } by {
        if k < w1.len() {
            assert(c[k] == ok_writes(w1)[k]);
        } else {
            assert(c[k] == c2[k - w1.len()]);
            let j = k - w1.len();
            assert(match c2[j] {
                WriterCall::Write { data, answer } => j < w2.len() && data == w2[j] && (j < c2.len() - 1 ==> answer == Ok::<usize,
                    ExofsError>(data.len() as usize)),
                WriterCall::Flush { answer } => j == w2.len(),
            });
        }
    }
}

/// Calls that follow some writes, and are no more than them, follow those
/// writes and more.
pub proof fn lemma_follow_extend(c: Seq<WriterCall>, w: Seq<Seq<u8>>, x: Seq<Seq<u8>>)
    requires
        writes_follow(c, w),
        c.len() <= w.len(),
    ensures
        writes_follow(c, w + x),
{
    let w2 = w + x;
    assert forall|k: int| 0 <= k < c.len() implies match #[trigger] c[k] {
        WriterCall::Write { data, answer } => k < w2.len() && data == w2[k] && (k < c.len() - 1 ==> answer == Ok::<usize,
            ExofsError>(data.len() as usize)),
        WriterCall::Flush { answer } => k == w2.len(),
    } by {
        assert(w2[k] == w[k]);
    }
}

/// Full answers to two runs of writes are the full answers to both.
pub proof fn lemma_ok_writes_concat(w1: Seq<Seq<u8>>, w2: Seq<Seq<u8>>)
    ensures
        ok_writes(w1) + ok_writes(w2) == ok_writes(w1 + w2),
{
    assert(ok_writes(w1) + ok_writes(w2) =~= ok_writes(w1 + w2));
}

/// Numbering `a` chunks then `b` chunks numbers `a + b` chunks.
pub proof fn lemma_seq_after_add(s: u64, a: nat, b: nat)
    ensures
        seq_after(seq_after(s, a), b) == seq_after(s, a + b),
    decreases a,
{
    if a > 0 {
        lemma_seq_after_add(seq_next(s), (a - 1) as nat, b);
        assert(seq_after(s, a + b) == seq_after(seq_next(s), (a + b - 1) as nat));
    }
}

/// Sending one chunk numbered `s` makes its writes.
pub proof fn lemma_stream_writes_one(s: u64, snap: u64, d: ChunkDesc)
    ensures
        stream_writes(s, snap, seq![d]) == chunk_writes(s, snap, d),
        seq_after(s, 1) == seq_next(s),
{
    assert(seq![d].drop_first() =~= Seq::<ChunkDesc>::empty());
    assert(seq![d][0] == d);
    assert(stream_writes(seq_next(s), snap, Seq::<ChunkDesc>::empty()) == Seq::<Seq<u8>>::empty());
    assert(chunk_writes(s, snap, d) + Seq::<Seq<u8>>::empty() =~= chunk_writes(s, snap, d));
    assert(seq_after(s, 1) == seq_after(seq_next(s), 0));
}

/// The chunks of the first `j` listed blobs come first among those of all
/// of them.
pub proof fn lemma_blobs_chunks_prefix<S: StreamBlobSource>(source: S, snap_id: SnapshotId, ids: Seq<BlobId>, j: int, cs: nat)
    requires
        0 <= j <= ids.len(),
    ensures
        exists|x: Seq<ChunkDesc>| blobs_chunks(source, snap_id, ids, cs) == blobs_chunks(source, snap_id, ids.take(j), cs) + x,
    decreases ids.len(),
{
    if j == ids.len() {
        assert(ids.take(j) =~= ids);
        assert(blobs_chunks(source, snap_id, ids, cs) == blobs_chunks(source, snap_id, ids.take(j), cs) + Seq::<ChunkDesc>::empty());
    } else {
        let d = ids.drop_last();
        lemma_blobs_chunks_prefix(source, snap_id, d, j, cs);
        let x0 = choose|x: Seq<ChunkDesc>| blobs_chunks(source, snap_id, d, cs) == blobs_chunks(source, snap_id, d.take(j), cs) + x;
        assert(d.take(j) =~= ids.take(j));
        let last = match source.blob(snap_id, ids.last()) {
            Ok(b) => blob_chunks(ids.last(), b, cs),
            Err(_) => Seq::<ChunkDesc>::empty(),
        };
        assert(blobs_chunks(source, snap_id, ids, cs) == blobs_chunks(source, snap_id, d, cs) + last);
        assert(blobs_chunks(source, snap_id, ids, cs) =~= blobs_chunks(source, snap_id, ids.take(j), cs) + (x0 + last));
    }
}

/// The writes for the manifest and the first `j` blobs come first among the
/// writes of the whole stream.
pub proof fn lemma_stream_prefix<S: StreamBlobSource>(
    source: S,
    snap_id: SnapshotId,
    ids: Seq<BlobId>,
    j: int,
    cs: nat,
    seq0: u64,
    man_c: Seq<ChunkDesc>,
    tail_c: Seq<ChunkDesc>,
)
    requires
        0 <= j <= ids.len(),
    ensures
        exists|x: Seq<Seq<u8>>| stream_writes(seq0, snap_id.0, (man_c + blobs_chunks(source, snap_id, ids, cs)) + tail_c)
            == stream_writes(seq0, snap_id.0, man_c + blobs_chunks(source, snap_id, ids.take(j), cs)) + x,
{
    lemma_blobs_chunks_prefix(source, snap_id, ids, j, cs);
    let x = choose|x: Seq<ChunkDesc>| blobs_chunks(source, snap_id, ids, cs) == blobs_chunks(source, snap_id, ids.take(j), cs) + x;
    let pre = man_c + blobs_chunks(source, snap_id, ids.take(j), cs);
    assert((man_c + blobs_chunks(source, snap_id, ids, cs)) + tail_c =~= pre + (x + tail_c));
    lemma_stream_writes_concat(seq0, snap_id.0, pre, x + tail_c);
}

/// The blobs of a snapshot, for the streamer; written by its user.
pub trait StreamBlobSource {
    /// The blobs the source lists for `snap_id`, or its error. An
    /// implementation states it; one that does not leaves it unknown.
    closed spec fn blobs_listed(&self, snap_id: SnapshotId) -> ExofsResult<Seq<BlobId>> {
        arbitrary()
    }

    /// The bytes the source gives for `blob_id` of `snap_id`, or its error.
    /// An implementation states it; one that does not leaves it unknown.
    closed spec fn blob(&self, snap_id: SnapshotId, blob_id: BlobId) -> ExofsResult<Seq<u8>> {
        arbitrary()
    }

    fn list_blobs(&self, snap_id: SnapshotId) -> (r: ExofsResult<Vec<BlobId>>)
        ensures
            match self.blobs_listed(snap_id) {
                Ok(l) => r matches Ok(v) && v@ == l,
                Err(e) => r == Err::<Vec<BlobId>, ExofsError>(e),
            },
    ;

    fn read_blob(&self, snap_id: SnapshotId, blob_id: BlobId) -> (r: ExofsResult<Vec<u8>>)
        ensures
            match self.blob(snap_id, blob_id) {
                Ok(d) => r matches Ok(v) && v@ == d,
                Err(e) => r == Err::<Vec<u8>, ExofsError>(e),
            },
    ;
}

/// A source of blobs held in memory, each under the identifier of its bytes.
pub struct MemStreamBlobSource {
    data: Vec<(BlobId, Vec<u8>)>,
    snap_blobs: Vec<(u64, BlobId)>,
}

impl MemStreamBlobSource {
    /// The data the source gives for the identifier `id`.
    pub closed spec fn data_of(&self, id: Seq<u8>) -> Option<Seq<u8>> {
        last_data(self.data@, id)
    }

    /// The blobs the source lists for `snap`.
    pub closed spec fn blobs_of(&self, snap: u64) -> Seq<BlobId> {
        listed(self.snap_blobs@, snap)
    }

    /// A source with no blob.
    pub fn new() -> (r: MemStreamBlobSource)
        ensures
            forall|id: Seq<u8>| r.data_of(id) is None,
            forall|snap: u64| r.blobs_of(snap).len() == 0,
    {
        MemStreamBlobSource { data: Vec::new(), snap_blobs: Vec::new() }
    }

    /// Records `data` under its identifier, lists it for `snap_id` and
    /// returns the identifier.
    pub fn add(&mut self, snap_id: SnapshotId, data: &[u8]) -> (r: ExofsResult<BlobId>)
        ensures
            r matches Ok(bid) && bid.0@ == blob_id_spec(data@)
                && final(self).data_of(bid.0@) == Some(data@)
                && (forall|id: Seq<u8>| id != bid.0@ ==> final(self).data_of(id) == old(self).data_of(id))
                && final(self).blobs_of(snap_id.0) == old(self).blobs_of(snap_id.0).push(bid)
                && (forall|snap: u64| snap != snap_id.0 ==> final(self).blobs_of(snap) == old(self).blobs_of(snap)),
    {
        let bid = compute_blob_id(data);
        let mut copy: Vec<u8> = Vec::new();
        push_bytes(&mut copy, data);
        let ghost d0 = self.data@;
        let ghost s0 = self.snap_blobs@;
        self.data.push((bid, copy));
        self.snap_blobs.push((snap_id.0, bid));
        proof {
            assert(self.data@.drop_last() =~= d0);
            assert(self.snap_blobs@.drop_last() =~= s0);
        }
        Ok(bid)
    }
}

impl StreamBlobSource for MemStreamBlobSource {
    open spec fn blobs_listed(&self, snap_id: SnapshotId) -> ExofsResult<Seq<BlobId>> {
        Ok(self.blobs_of(snap_id.0))
    }

    open spec fn blob(&self, snap_id: SnapshotId, blob_id: BlobId) -> ExofsResult<Seq<u8>> {
        match self.data_of(blob_id.0@) {
            Some(d) => Ok(d),
            None => Err(ExofsError::NotFound),
        }
    }

    fn list_blobs(&self, snap_id: SnapshotId) -> (r: ExofsResult<Vec<BlobId>>)
        ensures
            r matches Ok(v) && v@ == self.blobs_of(snap_id.0),
    {
        let mut out: Vec<BlobId> = Vec::new();
        let mut i: usize = 0;
        while i < self.snap_blobs.len()
            invariant
                0 <= i <= self.snap_blobs@.len(),
                out@ == listed(self.snap_blobs@.subrange(0, i as int), snap_id.0),
            decreases self.snap_blobs@.len() - i,
        {
            let ghost p = self.snap_blobs@.subrange(0, i + 1);
            assert(p.drop_last() =~= self.snap_blobs@.subrange(0, i as int));
            let e = self.snap_blobs[i];
            if e.0 == snap_id.0 {
                out.push(e.1);
            }
            i += 1;
        }
        proof {
            assert(self.snap_blobs@.subrange(0, i as int) =~= self.snap_blobs@);
        }
        Ok(out)
    }

    fn read_blob(&self, snap_id: SnapshotId, blob_id: BlobId) -> (r: ExofsResult<Vec<u8>>)
        ensures
            match self.data_of(blob_id.0@) {
                Some(d) => r matches Ok(v) && v@ == d,
                None => r == Err::<Vec<u8>, ExofsError>(ExofsError::NotFound),
            },
    {
        let mut i: usize = self.data.len();
        proof {
            assert(self.data@.subrange(0, i as int) =~= self.data@);
        }
        while i > 0
            invariant
                i <= self.data@.len(),
                last_data(self.data@, blob_id.0@) == last_data(self.data@.subrange(0, i as int), blob_id.0@),
            decreases i,
        {
            let ghost p = self.data@.subrange(0, i as int);
            assert(p.drop_last() =~= self.data@.subrange(0, i - 1));
            if self.data[i - 1].0.ct_eq(&blob_id) {
                let mut out: Vec<u8> = Vec::new();
                push_bytes(&mut out, self.data[i - 1].1.as_slice());
                return Ok(out);
            }
            i -= 1;
        }
        Err(ExofsError::NotFound)
    }
}

/// The outcome of a write of `expected` bytes that answered `written`.
pub fn check_written(written: ExofsResult<usize>, expected: usize) -> (r: ExofsResult<usize>)
    ensures
        r == (match written {
            Err(e) => Err(e),
            Ok(n) => if n == expected { Ok(n) } else { Err(ExofsError::ShortWrite) },
        }),
{
    match written {
        Err(e) => Err(e),
        Ok(n) => {
            if n != expected {
                Err(ExofsError::ShortWrite)
            } else {
                Ok(n)
            }
        },
    }
}

/// The flags of the snapshot of key `k` with `STREAMING` set, then cleared.
pub open spec fn streaming_cleared(o: SnapshotListView, n: SnapshotListView, k: u64) -> bool {
    forall|i: int| 0 <= i < o.entries.len() && (#[trigger] o.entries[i]).0 == k ==> n == (SnapshotListView {
        entries: o.entries.update(i, (k, Snapshot {
            flags: (o.entries[i].1.flags | flags::STREAMING) & !flags::STREAMING,
            ..o.entries[i].1
        })),
        ..o
    })
}

/// Numbers the chunks and streams snapshots; it can be aborted.
pub struct SnapshotStreamer {
    seq: u64,
    aborted: bool,
}

impl SnapshotStreamer {
    /// The next sequence number.
    pub closed spec fn next_seq(&self) -> u64 {
        self.seq
    }

    /// The streamer was aborted.
    pub closed spec fn is_aborted_spec(&self) -> bool {
        self.aborted
    }

    /// A streamer that numbers from 0 and is not aborted.
    pub fn new() -> (r: SnapshotStreamer)
        ensures
            r.next_seq() == 0,
            !r.is_aborted_spec(),
    {
        SnapshotStreamer { seq: 0, aborted: false }
    }

    /// A finalized header with the next sequence number.
    pub fn build_header(&mut self, snap_id: SnapshotId, chunk_type: u8, blob_id: BlobId, payload_len: u32) -> (r: StreamChunkHeader)
        ensures
            r.magic == STREAM_MAGIC && r.version == STREAM_FORMAT_VERSION && r.chunk_type == chunk_type,
            r._pad0@ == seq![0u8, 0u8],
            r.seq == old(self).next_seq() && r.snap_id == snap_id.0 && r.blob_id@ == blob_id.0@,
            r.payload_len == payload_len,
            r.checksum@ == chunk_checksum(r),
            chunk_check(r) == Ok::<(), ExofsError>(()),
            final(self).next_seq() == (if old(self).next_seq() == u64::MAX { 0 } else { (old(self).next_seq() + 1) as u64 }),
            final(self).is_aborted_spec() == old(self).is_aborted_spec(),
    {
        let seq = self.seq;
        self.seq = self.seq.wrapping_add(1);
        let mut hdr = StreamChunkHeader {
            magic: STREAM_MAGIC,
            version: STREAM_FORMAT_VERSION,
            chunk_type,
            _pad0: [0u8; 2],
            seq,
            snap_id: snap_id.0,
            blob_id: *blob_id.as_bytes(),
            payload_len,
            checksum: [0u8; 4],
        };
        hdr.finalize();
        proof {
            assert(hdr._pad0@ =~= seq![0u8, 0u8]);
        }
        hdr
    }

    /// Streams the snapshot `snap_id` of `list` from `source` into
    /// `writer`; the snapshot is marked as streaming in `list` meanwhile.
    #[verifier::rlimit(100)]
    pub fn stream<S: StreamBlobSource, W: StreamWriter>(
        &mut self,
        list: &mut SnapshotList,
        snap_id: SnapshotId,
        source: &S,
        writer: &mut W,
        opts: StreamOptions,
    ) -> (r: ExofsResult<StreamResult>)
        requires
            old(list).wf(),
            opts.chunk_size > 0,
        ensures
            final(list).wf(),
            final(self).is_aborted_spec() == old(self).is_aborted_spec(),
            !has_key(old(list)@.entries, snap_id.0) ==> r == Err::<StreamResult, ExofsError>(ExofsError::NotFound)
                && final(list)@ == old(list)@ && *final(writer) == *old(writer),
            has_key(old(list)@.entries, snap_id.0) ==> streaming_cleared(old(list)@, final(list)@, snap_id.0),
            r matches Ok(res) ==> stream_sane(res, snap_id, opts, old(self).is_aborted_spec()),
            r matches Ok(res) ==> stream_blobs_sent(*source, snap_id, res, old(self).is_aborted_spec()),
            r matches Ok(res) ==> stream_bytes_counted(*source, snap_id, res, opts),
            has_key(old(list)@.entries, snap_id.0) && !opts.with_manifest
                ==> (source.blobs_listed(snap_id) matches Err(e) ==> r == Err::<StreamResult, ExofsError>(e)),
            r matches Ok(res) ==> final(writer).calls() == old(writer).calls() + ok_writes(stream_writes(old(self).next_seq(), snap_id.0,
                stream_chunks(*source, snap_id, snap_of(old(list)@, snap_id), listed_ids(*source, snap_id), opts, res.aborted))) + (
            if res.aborted {
                Seq::<WriterCall>::empty()
            } else {
                seq![WriterCall::Flush { answer: Ok::<(), ExofsError>(()) }]
            }),
            has_key(old(list)@.entries, snap_id.0) ==> exists|c: Seq<WriterCall>| #[trigger] writes_follow(c, stream_writes(
                old(self).next_seq(), snap_id.0, stream_chunks(*source, snap_id, snap_of(old(list)@, snap_id), listed_ids(*source, snap_id),
                opts, false))) && final(writer).calls() == old(writer).calls() + c,
            has_key(old(list)@.entries, snap_id.0) && r is Err ==> source.blobs_listed(snap_id) is Err
                || (exists|k: int| 0 <= k < listed_ids(*source, snap_id).len() && (#[trigger] source.blob(snap_id, listed_ids(*source,
                snap_id)[k])) is Err)
                || listed_ids(*source, snap_id).len() + 2 > u64::MAX
                || (final(writer).calls().len() > old(writer).calls().len() && answered_short(final(writer).calls().last())),
    {
        let snap = match list.get(snap_id) {
            Ok(s) => s,
            Err(e) => return Err(e),
        };
        let ghost l0 = list@;
        match list.set_flags(snap_id, flags::STREAMING) {
            Ok(_) => {},
            Err(e) => return Err(e),
        }
        let ghost l1 = list@;
        let result = self.run_stream(snap_id, &snap, source, writer, opts);
        let _ = list.clear_flags(snap_id, flags::STREAMING);
        proof {
            assert forall|i: int| 0 <= i < l0.entries.len() && (#[trigger] l0.entries[i]).0 == snap_id.0 implies list@ == (
            SnapshotListView {
                entries: l0.entries.update(i, (snap_id.0, Snapshot {
                    flags: (l0.entries[i].1.flags | flags::STREAMING) & !flags::STREAMING,
                    ..l0.entries[i].1
                })),
                ..l0
            }) by {
                assert(l1.entries[i].0 == snap_id.0);
                assert(l1.entries.update(i, (snap_id.0, Snapshot { flags: l1.entries[i].1.flags & !flags::STREAMING, ..l1.entries[i].1 }))
                    =~= l0.entries.update(i, (snap_id.0, Snapshot {
                    flags: (l0.entries[i].1.flags | flags::STREAMING) & !flags::STREAMING,
                    ..l0.entries[i].1
                })));
            }
        }
        result
    }

    #[verifier::rlimit(100)]
    fn run_stream<S: StreamBlobSource, W: StreamWriter>(
        &mut self,
        snap_id: SnapshotId,
        snap: &Snapshot,
        source: &S,
        writer: &mut W,
        opts: StreamOptions,
    ) -> (r: ExofsResult<StreamResult>)
        requires
            opts.chunk_size > 0,
        ensures
            final(self).is_aborted_spec() == old(self).is_aborted_spec(),
            r matches Ok(res) ==> stream_sane(res, snap_id, opts, old(self).is_aborted_spec()),
            r matches Ok(res) ==> stream_blobs_sent(*source, snap_id, res, old(self).is_aborted_spec()),
            r matches Ok(res) ==> stream_bytes_counted(*source, snap_id, res, opts),
            !opts.with_manifest ==> (source.blobs_listed(snap_id) matches Err(e) ==> r == Err::<StreamResult, ExofsError>(e)),
            r matches Ok(res) ==> final(writer).calls() == old(writer).calls() + ok_writes(stream_writes(old(self).next_seq(), snap_id.0,
                stream_chunks(*source, snap_id, *snap, listed_ids(*source, snap_id), opts, res.aborted))) + (if res.aborted {
                Seq::<WriterCall>::empty()
            } else {
                seq![WriterCall::Flush { answer: Ok::<(), ExofsError>(()) }]
            }),
            exists|c: Seq<WriterCall>| #[trigger] writes_follow(c, stream_writes(old(self).next_seq(), snap_id.0, stream_chunks(*source,
                snap_id, *snap, listed_ids(*source, snap_id), opts, false))) && final(writer).calls() == old(writer).calls() + c,
            r is Err ==> source.blobs_listed(snap_id) is Err
                || (exists|k: int| 0 <= k < listed_ids(*source, snap_id).len() && (#[trigger] source.blob(snap_id, listed_ids(*source,
                snap_id)[k])) is Err)
                || listed_ids(*source, snap_id).len() + 2 > u64::MAX
                || (final(writer).calls().len() > old(writer).calls().len() && answered_short(final(writer).calls().last())),
    {
        let ghost seq0 = self.next_seq();
        let ghost c0 = writer.calls();
        let ghost cs: nat = opts.chunk_size as nat;
        let ghost man_c: Seq<ChunkDesc> = manifest_part(*snap, opts);
        let ghost full = stream_writes(seq0, snap_id.0, stream_chunks(*source, snap_id, *snap, listed_ids(*source, snap_id), opts, false));
        proof {
            let rest = blobs_chunks(*source, snap_id, listed_ids(*source, snap_id), cs) + end_part(opts);
            lemma_stream_chunks_shape(*source, snap_id, *snap, listed_ids(*source, snap_id), opts);
            assert((man_c + blobs_chunks(*source, snap_id, listed_ids(*source, snap_id), cs)) + end_part(opts) =~= man_c + rest);
            lemma_stream_writes_concat(seq0, snap_id.0, man_c, rest);
            lemma_ok_writes_follow(stream_writes(seq0, snap_id.0, man_c));
            assert(ok_writes(stream_writes(seq0, snap_id.0, Seq::<ChunkDesc>::empty())) =~= Seq::<WriterCall>::empty());
            assert(c0 + Seq::<WriterCall>::empty() =~= c0);
            if !opts.with_manifest {
                assert(writes_follow(Seq::<WriterCall>::empty(), full));
            }
        }
        let mut result = StreamResult { snap_id, n_chunks: 0, n_blobs: 0, bytes_sent: 0, aborted: false };
        if opts.with_manifest {
            let ghost cw = writer.calls();
            let bytes = match self.send_manifest(snap_id, snap, writer) {
                Ok(b) => b,
                Err(e) => {
                    proof {
                        let c = choose|c: Seq<WriterCall>| #[trigger] writes_follow(c, chunk_writes(seq0, snap_id.0, manifest_chunk(*snap)))
                            && writer.calls() == cw + c && c.len() <= chunk_writes(seq0, snap_id.0, manifest_chunk(*snap)).len()
                            && c.len() > 0 && answered_short(c.last());
                        lemma_stream_writes_one(seq0, snap_id.0, manifest_chunk(*snap));
                        lemma_follow_extend(c, stream_writes(seq0, snap_id.0, man_c), stream_writes(seq_after(seq0, man_c.len()), snap_id.0,
                            blobs_chunks(*source, snap_id, listed_ids(*source, snap_id), cs) + end_part(opts)));
                        assert(writer.calls().last() == c.last());
                    }
                    return Err(e);
                },
            };
            proof {
                lemma_stream_writes_one(seq0, snap_id.0, manifest_chunk(*snap));
            }
            let b: u64 = bytes as u64;
            result.bytes_sent = result.bytes_sent.saturating_add(b);
            result.n_chunks = match result.n_chunks.checked_add(1) {
                Some(v) => v,
                None => return Err(ExofsError::Overflow),
            };
        }
        proof {
            assert(writer.calls() == c0 + ok_writes(stream_writes(seq0, snap_id.0, man_c)));
            assert(self.next_seq() == seq_after(seq0, man_c.len()));
        }
        let blob_ids = match source.list_blobs(snap_id) {
            Ok(v) => v,
            Err(e) => {
                proof {
                    assert(writes_follow(ok_writes(stream_writes(seq0, snap_id.0, man_c)), full));
                }
                return Err(e);
            },
        };
        let aborted = self.aborted;
        let ghost man: int = if opts.with_manifest { manifest_wire_bytes() } else { 0int };
        let ghost ids = blob_ids@;
        let ghost tail_c: Seq<ChunkDesc> = end_part(opts);
        let mut i: usize = 0;
        proof {
            assert(blob_ids@.take(0) =~= Seq::<BlobId>::empty());
            assert(ids == listed_ids(*source, snap_id));
            assert(man_c + blobs_chunks(*source, snap_id, ids.take(0), cs) =~= man_c);
            lemma_stream_chunks_shape(*source, snap_id, *snap, ids, opts);
        }
        while i < blob_ids.len()
            invariant
                i <= blob_ids@.len(),
                opts.chunk_size > 0,
                cs == opts.chunk_size,
                aborted == self.aborted,
                aborted == old(self).is_aborted_spec(),
                aborted ==> i == 0,
                result.n_blobs == i,
                result.snap_id == snap_id,
                !result.aborted,
                result.n_chunks == result.n_blobs + (if opts.with_manifest { 1int } else { 0int }),
                result.bytes_sent == capped(man + blobs_wire_bytes(*source, snap_id, blob_ids@.take(i as int), opts.chunk_size as nat),
                    u64::MAX as int),
                man == (if opts.with_manifest { manifest_wire_bytes() } else { 0int }),
                source.blobs_listed(snap_id) == Ok::<Seq<BlobId>, ExofsError>(blob_ids@),
                ids == blob_ids@,
                ids == listed_ids(*source, snap_id),
                forall|k: int| 0 <= k < i ==> (#[trigger] source.blob(snap_id, blob_ids@[k])) is Ok,
                writer.calls() == c0 + ok_writes(stream_writes(seq0, snap_id.0, man_c + blobs_chunks(*source, snap_id, ids.take(i as int), cs))),
                self.next_seq() == seq_after(seq0, (man_c + blobs_chunks(*source, snap_id, ids.take(i as int), cs)).len()),
                full == stream_writes(seq0, snap_id.0, (man_c + blobs_chunks(*source, snap_id, ids, cs)) + tail_c),
                full == stream_writes(old(self).next_seq(), snap_id.0, stream_chunks(*source, snap_id, *snap, listed_ids(*source, snap_id),
                    opts, false)),
                man_c == manifest_part(*snap, opts),
                tail_c == end_part(opts),
                c0 == old(writer).calls(),
                seq0 == old(self).next_seq(),
            decreases blob_ids@.len() - i,
        {
            if self.aborted {
                result.aborted = true;
                proof {
                    assert(blobs_chunks(*source, snap_id, ids.take(0), cs) == Seq::<ChunkDesc>::empty());
                    lemma_stream_chunks_shape(*source, snap_id, *snap, ids, opts);
                    assert(ok_writes(stream_writes(seq0, snap_id.0, man_c)) + Seq::<WriterCall>::empty() =~= ok_writes(stream_writes(seq0,
                        snap_id.0, man_c)));
                    lemma_stream_writes_concat(seq0, snap_id.0, man_c, blobs_chunks(*source, snap_id, ids, cs) + tail_c);
                    assert((man_c + blobs_chunks(*source, snap_id, ids, cs)) + tail_c =~= man_c + (blobs_chunks(*source, snap_id, ids, cs) + tail_c));
                    lemma_ok_writes_follow(stream_writes(seq0, snap_id.0, man_c));
                    lemma_follow_extend(ok_writes(stream_writes(seq0, snap_id.0, man_c)), stream_writes(seq0, snap_id.0, man_c),
                        stream_writes(seq_after(seq0, man_c.len()), snap_id.0, blobs_chunks(*source, snap_id, ids, cs) + tail_c));
                }
                return Ok(result);
            }
            let blob_id = blob_ids[i];
            let data = match source.read_blob(snap_id, blob_id) {
                Ok(d) => d,
                Err(e) => {
                    proof {
                        lemma_stream_prefix(*source, snap_id, ids, i as int, cs, seq0, man_c, tail_c);
                        Self::lemma_ok_prefix_in_full(stream_writes(seq0, snap_id.0, man_c + blobs_chunks(*source, snap_id, ids.take(i as int), cs)),
                            full);
                    }
                    return Err(e);
                },
            };
            let ghost done = man_c + blobs_chunks(*source, snap_id, ids.take(i as int), cs);
            let ghost bc = blob_chunks(blob_id, data@, cs);
            let ghost cw = writer.calls();
            let ghost sk = self.next_seq();
            proof {
                assert(blob_ids@.take(i + 1).drop_last() =~= blob_ids@.take(i as int));
                assert(blob_ids@.take(i + 1).last() == blob_ids@[i as int]);
                assert(blobs_chunks(*source, snap_id, ids.take(i + 1), cs) == blobs_chunks(*source, snap_id, ids.take(i as int), cs) + bc);
                assert(man_c + blobs_chunks(*source, snap_id, ids.take(i + 1), cs) =~= done + bc);
                lemma_stream_writes_concat(seq0, snap_id.0, done, bc);
                lemma_seq_after_add(seq0, done.len(), bc.len());
                lemma_stream_prefix(*source, snap_id, ids, i + 1, cs, seq0, man_c, tail_c);
            }
            let bytes = match self.send_blob(snap_id, blob_id, data.as_slice(), writer, &opts) {
                Ok(b) => b,
                Err(e) => {
                    proof {
                        let c = choose|c: Seq<WriterCall>| #[trigger] writes_follow(c, stream_writes(sk, snap_id.0, bc)) && writer.calls() == cw + c
                            && c.len() <= stream_writes(sk, snap_id.0, bc).len() && c.len() > 0 && answered_short(c.last());
                        let w0 = stream_writes(seq0, snap_id.0, done);
                        lemma_follow_after_ok(w0, stream_writes(sk, snap_id.0, bc), c);
                        assert(writer.calls() =~= c0 + (ok_writes(w0) + c));
                        assert(writer.calls().last() == c.last());
                        Self::lemma_follow_into_full(ok_writes(w0) + c, stream_writes(seq0, snap_id.0, done + bc), full);
                    }
                    return Err(e);
                },
            };
            let b: u64 = bytes as u64;
            result.bytes_sent = result.bytes_sent.saturating_add(b);
            proof {
                let c = choose|c: Seq<WriterCall>| #[trigger] writes_follow(c, stream_writes(sk, snap_id.0, bc)) && writer.calls() == cw + c
                    && c == ok_writes(stream_writes(sk, snap_id.0, bc));
                lemma_ok_writes_concat(stream_writes(seq0, snap_id.0, done), stream_writes(sk, snap_id.0, bc));
                assert(writer.calls() =~= c0 + ok_writes(stream_writes(seq0, snap_id.0, man_c + blobs_chunks(*source, snap_id, ids.take(i + 1), cs))));
            }
            result.n_chunks = match result.n_chunks.checked_add(1) {
                Some(v) => v,
                None => {
                    proof {
                        assert(ids.len() + 2 > u64::MAX);
                        Self::lemma_ok_prefix_in_full(stream_writes(seq0, snap_id.0, done + bc), full);
                    }
                    return Err(ExofsError::Overflow);
                },
            };
            result.n_blobs = match result.n_blobs.checked_add(1) {
                Some(v) => v,
                None => {
                    proof {
                        Self::lemma_ok_prefix_in_full(stream_writes(seq0, snap_id.0, done + bc), full);
                    }
                    return Err(ExofsError::Overflow);
                },
            };
            i += 1;
        }
        proof {
            assert(blob_ids@.take(blob_ids@.len() as int) =~= blob_ids@);
        }
        let ghost body = man_c + blobs_chunks(*source, snap_id, ids, cs);
        let ghost cw = writer.calls();
        let ghost sk = self.next_seq();
        proof {
            lemma_stream_writes_concat(seq0, snap_id.0, body, tail_c);
            lemma_seq_after_add(seq0, body.len(), tail_c.len());
            lemma_stream_chunks_shape(*source, snap_id, *snap, ids, opts);
        }
        if opts.with_end_marker {
            let bytes = match self.send_end(snap_id, writer) {
                Ok(b) => b,
                Err(e) => {
                    proof {
                        let c = choose|c: Seq<WriterCall>| #[trigger] writes_follow(c, chunk_writes(sk, snap_id.0, end_chunk()))
                            && writer.calls() == cw + c && c.len() <= chunk_writes(sk, snap_id.0, end_chunk()).len()
                            && c.len() > 0 && answered_short(c.last());
                        lemma_stream_writes_one(sk, snap_id.0, end_chunk());
                        lemma_follow_after_ok(stream_writes(seq0, snap_id.0, body), chunk_writes(sk, snap_id.0, end_chunk()), c);
                        assert(writer.calls() =~= c0 + (ok_writes(stream_writes(seq0, snap_id.0, body)) + c));
                        assert(writer.calls().last() == c.last());
                    }
                    return Err(e);
                },
            };
            let b: u64 = bytes as u64;
            result.bytes_sent = result.bytes_sent.saturating_add(b);
            proof {
                let c = choose|c: Seq<WriterCall>| #[trigger] writes_follow(c, chunk_writes(sk, snap_id.0, end_chunk())) && writer.calls() == cw + c
                    && c == ok_writes(chunk_writes(sk, snap_id.0, end_chunk()));
                lemma_stream_writes_one(sk, snap_id.0, end_chunk());
                lemma_ok_writes_concat(stream_writes(seq0, snap_id.0, body), chunk_writes(sk, snap_id.0, end_chunk()));
            }
            result.n_chunks = match result.n_chunks.checked_add(1) {
                Some(v) => v,
                None => {
                    proof {
                        lemma_ok_writes_follow(full);
                    }
                    return Err(ExofsError::Overflow);
                },
            };
        } else {
            proof {
                assert(body + tail_c =~= body);
            }
        }
        proof {
            assert(writer.calls() == c0 + ok_writes(full));
            lemma_ok_writes_follow(full);
        }
        let ghost cf = writer.calls();
        let fl = writer.flush();
        proof {
            let c = ok_writes(full).push(WriterCall::Flush { answer: fl });
            assert(writer.calls() =~= c0 + c);
            assert(writes_follow(c, full));
        }
        match fl {
            Ok(_) => {},
            Err(e) => return Err(e),
        }
        proof {
            assert(fl is Ok);
            assert(fl->Ok_0 == ());
            assert(fl == Ok::<(), ExofsError>(()));
            lemma_stream_chunks_shape(*source, snap_id, *snap, ids, opts);
            assert(writer.calls() =~= c0 + ok_writes(full) + seq![WriterCall::Flush { answer: Ok::<(), ExofsError>(()) }]);
        }
        Ok(result)
    }

    /// Writes answered in full for a prefix of the chunks follow all the
    /// writes of the stream.
    proof fn lemma_ok_prefix_in_full(w: Seq<Seq<u8>>, full: Seq<Seq<u8>>)
        requires
            exists|x: Seq<Seq<u8>>| full == w + x,
        ensures
            writes_follow(ok_writes(w), full),
    {
        let x = choose|x: Seq<Seq<u8>>| full == w + x;
        lemma_ok_writes_follow(w);
        lemma_follow_extend(ok_writes(w), w, x);
    }

    /// Calls following a prefix of the writes, no more than it, follow all
    /// the writes of the stream.
    proof fn lemma_follow_into_full(c: Seq<WriterCall>, w: Seq<Seq<u8>>, full: Seq<Seq<u8>>)
        requires
            writes_follow(c, w),
            c.len() <= w.len(),
            exists|x: Seq<Seq<u8>>| full == w + x,
        ensures
            writes_follow(c, full),
    {
        let x = choose|x: Seq<Seq<u8>>| full == w + x;
        lemma_follow_extend(c, w, x);
    }

    fn send_manifest<W: StreamWriter>(&mut self, snap_id: SnapshotId, snap: &Snapshot, writer: &mut W) -> (r: ExofsResult<usize>)
        ensures
            final(self).is_aborted_spec() == old(self).is_aborted_spec(),
            final(self).next_seq() == seq_next(old(self).next_seq()),
            r matches Ok(n) ==> n == manifest_wire_bytes(),
            exists|c: Seq<WriterCall>| #[trigger] writes_follow(c, chunk_writes(old(self).next_seq(), snap_id.0, manifest_chunk(*snap)))
                && final(writer).calls() == old(writer).calls() + c && c.len() <= chunk_writes(old(self).next_seq(), snap_id.0, manifest_chunk(*snap)).len()
                && (r is Ok ==> c == ok_writes(chunk_writes(old(self).next_seq(), snap_id.0, manifest_chunk(*snap))))
                && (r is Err ==> c.len() > 0 && answered_short(c.last())),
    {
        let mut payload: Vec<u8> = Vec::new();
        push_bytes(&mut payload, snap.root_blob.as_bytes().as_slice());
        push_u64(&mut payload, snap.n_blobs);
        push_u64(&mut payload, snap.total_bytes);
        let ghost s0 = self.next_seq();
        let hdr = self.build_header(snap_id, CHUNK_TYPE_MANIFEST, snap.root_blob, 48);
        proof {
            assert(payload@ =~= manifest_chunk(*snap).payload);
            lemma_header_image(hdr, s0, snap_id.0, manifest_chunk(*snap));
        }
        Self::write_chunk(&hdr, payload.as_slice(), writer)
    }

    fn send_blob<W: StreamWriter>(
        &mut self,
        snap_id: SnapshotId,
        blob_id: BlobId,
        data: &[u8],
        writer: &mut W,
        opts: &StreamOptions,
    ) -> (r: ExofsResult<usize>)
        requires
            opts.chunk_size > 0,
        ensures
            final(self).is_aborted_spec() == old(self).is_aborted_spec(),
            r matches Ok(n) ==> n == capped(blob_wire_bytes(data@.len(), opts.chunk_size as nat), usize::MAX as int),
            r is Ok ==> final(self).next_seq() == seq_after(old(self).next_seq(), blob_chunks(blob_id, data@, opts.chunk_size as nat).len()),
            exists|c: Seq<WriterCall>| #[trigger] writes_follow(c, stream_writes(old(self).next_seq(), snap_id.0, blob_chunks(blob_id,
                data@, opts.chunk_size as nat))) && final(writer).calls() == old(writer).calls() + c
                && c.len() <= stream_writes(old(self).next_seq(), snap_id.0, blob_chunks(blob_id, data@, opts.chunk_size as nat)).len()
                && (r is Ok ==> c == ok_writes(stream_writes(old(self).next_seq(), snap_id.0, blob_chunks(blob_id, data@,
                opts.chunk_size as nat))))
                && (r is Err ==> c.len() > 0 && answered_short(c.last())),
    {
        let ghost s0 = self.next_seq();
        let ghost c0 = writer.calls();
        let ghost cs: nat = opts.chunk_size as nat;
        if data.len() == 0 {
            let hdr = self.build_header(snap_id, CHUNK_TYPE_BLOB, blob_id, 0);
            let ghost d = ChunkDesc { chunk_type: CHUNK_TYPE_BLOB, id: blob_id.0@, payload: data@ };
            proof {
                lemma_header_image(hdr, s0, snap_id.0, d);
                lemma_stream_writes_one(s0, snap_id.0, d);
                assert(blob_chunks(blob_id, data@, cs) == seq![d]);
            }
            return Self::write_chunk(&hdr, data, writer);
        }
        let ghost mut done: Seq<ChunkDesc> = Seq::empty();
        proof {
            assert(data@.skip(0) =~= data@);
            assert(done + blob_chunks(blob_id, data@, cs) =~= blob_chunks(blob_id, data@, cs));
            assert(ok_writes(stream_writes(s0, snap_id.0, done)) =~= Seq::<WriterCall>::empty());
            assert(c0 + Seq::<WriterCall>::empty() =~= c0);
        }
        let mut total_sent: usize = 0;
        let mut offset: usize = 0;
        let ghost cs: nat = opts.chunk_size as nat;
        let ghost acc: int = 0;
        while offset < data.len()
            invariant
                offset <= data@.len(),
                opts.chunk_size > 0,
                cs == opts.chunk_size,
                total_sent == capped(acc, usize::MAX as int),
                acc >= 0,
                acc + (if offset < data@.len() { blob_wire_bytes((data@.len() - offset) as nat, cs) } else { 0int })
                    == blob_wire_bytes(data@.len(), cs),
                self.is_aborted_spec() == old(self).is_aborted_spec(),
                offset < data@.len() ==> blob_chunks(blob_id, data@, cs) == done + blob_chunks(blob_id, data@.skip(offset as int), cs),
                offset == data@.len() ==> blob_chunks(blob_id, data@, cs) == done,
                writer.calls() == c0 + ok_writes(stream_writes(s0, snap_id.0, done)),
                self.next_seq() == seq_after(s0, done.len()),
                s0 == old(self).next_seq(),
                c0 == old(writer).calls(),
            decreases data@.len() - offset,
        {
            proof {
                let rest: nat = (data@.len() - offset) as nat;
                if rest > cs {
                    assert(blob_wire_bytes(rest, cs) == STREAM_CHUNK_HDR_SIZE + cs + blob_wire_bytes((rest - cs) as nat, cs));
                }
            }
            let end: usize = if data.len() - offset <= opts.chunk_size { data.len() } else { offset + opts.chunk_size };
            let chunk_data = crate::bytes::copy_range(data, offset, end - offset);
            #[verifier::truncate]
            let plen: u32 = (end - offset) as u32;
            let ghost sk = self.next_seq();
            let hdr = self.build_header(snap_id, CHUNK_TYPE_BLOB, blob_id, plen);
            let ghost d = ChunkDesc { chunk_type: CHUNK_TYPE_BLOB, id: blob_id.0@, payload: chunk_data@ };
            let ghost w0 = stream_writes(s0, snap_id.0, done);
            proof {
                lemma_header_image(hdr, sk, snap_id.0, d);
                lemma_stream_writes_one(sk, snap_id.0, d);
                lemma_stream_writes_concat(s0, snap_id.0, done, seq![d]);
                lemma_seq_after_add(s0, done.len(), 1);
                let rest = data@.skip(offset as int);
                if rest.len() <= cs {
                    assert(chunk_data@ =~= rest);
                    assert(blob_chunks(blob_id, rest, cs) == seq![d]);
                } else {
                    assert(chunk_data@ =~= rest.take(cs as int));
                    assert(rest.skip(cs as int) =~= data@.skip(end as int));
                    assert(blob_chunks(blob_id, rest, cs) == seq![d] + blob_chunks(blob_id, data@.skip(end as int), cs));
                }
                let tail = if end < data@.len() { blob_chunks(blob_id, data@.skip(end as int), cs) } else { Seq::<ChunkDesc>::empty() };
                assert(blob_chunks(blob_id, data@, cs) =~= (done + seq![d]) + tail);
                lemma_stream_writes_concat(s0, snap_id.0, done + seq![d], tail);
            }
            let ghost cw = writer.calls();
            let res = Self::write_chunk(&hdr, chunk_data.as_slice(), writer);
            let n = match res {
                Ok(n) => n,
                Err(e) => {
                    proof {
                        let c = choose|c: Seq<WriterCall>| #[trigger] writes_follow(c, header_then(hdr, chunk_data@)) && writer.calls() == cw + c
                            && c.len() <= header_then(hdr, chunk_data@).len() && c.len() > 0 && answered_short(c.last());
                        lemma_follow_after_ok(w0, chunk_writes(sk, snap_id.0, d), c);
                        let tail = if end < data@.len() { blob_chunks(blob_id, data@.skip(end as int), cs) } else {
                            Seq::<ChunkDesc>::empty()
                        };
                        let x = stream_writes(seq_after(s0, (done + seq![d]).len()), snap_id.0, tail);
                        lemma_follow_extend(ok_writes(w0) + c, w0 + chunk_writes(sk, snap_id.0, d), x);
                        assert(writer.calls() =~= c0 + (ok_writes(w0) + c));
                    }
                    return Err(e);
                },
            };
            total_sent = total_sent.saturating_add(n);
            proof {
                acc = acc + STREAM_CHUNK_HDR_SIZE + (end - offset);
                let c = choose|c: Seq<WriterCall>| #[trigger] writes_follow(c, header_then(hdr, chunk_data@)) && writer.calls() == cw + c
                    && c == ok_writes(header_then(hdr, chunk_data@));
                lemma_ok_writes_concat(w0, chunk_writes(sk, snap_id.0, d));
                assert(writer.calls() =~= c0 + ok_writes(stream_writes(s0, snap_id.0, done + seq![d])));
                assert(self.next_seq() == seq_next(sk));
                assert(seq_after(s0, done.len() + 1) == seq_next(sk));
                let dold = done;
                done = done.push(d);
                assert(done =~= dold + seq![d]);
                assert(self.next_seq() == seq_after(s0, done.len()));
            }
            offset = end;
        }
        proof {
            let all = stream_writes(s0, snap_id.0, done);
            assert(writes_follow(ok_writes(all), all));
        }
        Ok(total_sent)
    }

    fn send_end<W: StreamWriter>(&mut self, snap_id: SnapshotId, writer: &mut W) -> (r: ExofsResult<usize>)
        ensures
            final(self).is_aborted_spec() == old(self).is_aborted_spec(),
            final(self).next_seq() == seq_next(old(self).next_seq()),
            r matches Ok(n) ==> n == STREAM_CHUNK_HDR_SIZE,
            exists|c: Seq<WriterCall>| #[trigger] writes_follow(c, chunk_writes(old(self).next_seq(), snap_id.0, end_chunk()))
                && final(writer).calls() == old(writer).calls() + c && c.len() <= chunk_writes(old(self).next_seq(), snap_id.0, end_chunk()).len()
                && (r is Ok ==> c == ok_writes(chunk_writes(old(self).next_seq(), snap_id.0, end_chunk())))
                && (r is Err ==> c.len() > 0 && answered_short(c.last())),
    {
        let ghost s0 = self.next_seq();
        let zero = BlobId([0u8; 32]);
        proof {
            assert(zero.0@ =~= end_chunk().id);
        }
        let hdr = self.build_header(snap_id, CHUNK_TYPE_END, zero, 0);
        let empty: [u8; 0] = [];
        proof {
            assert(empty@ =~= end_chunk().payload);
            lemma_header_image(hdr, s0, snap_id.0, end_chunk());
        }
        Self::write_chunk(&hdr, empty.as_slice(), writer)
    }

    /// Writes the header, then the payload when there is one; each write
    /// must be complete.
    fn write_chunk<W: StreamWriter>(hdr: &StreamChunkHeader, payload: &[u8], writer: &mut W) -> (r: ExofsResult<usize>)
        ensures
            r matches Ok(n) ==> n == capped(STREAM_CHUNK_HDR_SIZE + payload@.len(), usize::MAX as int),
            exists|c: Seq<WriterCall>| #[trigger] writes_follow(c, header_then(*hdr, payload@)) && final(writer).calls() == old(writer).calls() + c
                && c.len() <= header_then(*hdr, payload@).len()
                && (r is Ok ==> c == ok_writes(header_then(*hdr, payload@))) && (r is Err ==> c.len() > 0 && answered_short(c.last())),
    {
        let ghost w = header_then(*hdr, payload@);
        let ghost c0 = writer.calls();
        let hdr_bytes = hdr.as_bytes();
        let a1 = writer.write(hdr_bytes.as_slice());
        let ghost c1 = seq![WriterCall::Write { data: hdr_bytes@, answer: a1 }];
        proof {
            assert(writer.calls() == c0 + c1);
        }
        let n = match check_written(a1, hdr_bytes.len()) {
            Ok(n) => n,
            Err(e) => {
                proof {
                    assert(hdr_bytes@ == chunk_image(*hdr));
                    assert(c1[0] == WriterCall::Write { data: hdr_bytes@, answer: a1 });
                    assert(writes_follow(c1, w));
                    assert(answered_short(c1.last()));
                    assert(c0 == old(writer).calls());
                    assert(exists|c: Seq<WriterCall>| #[trigger] writes_follow(c, w) && writer.calls() == old(writer).calls() + c
                        && c.len() > 0 && answered_short(c.last()));
                }
                return Err(e);
            },
        };
        let mut total = n;
        if payload.len() != 0 {
            let a2 = writer.write(payload);
            let ghost c2 = c1.push(WriterCall::Write { data: payload@, answer: a2 });
            proof {
                assert(writer.calls() =~= c0 + c2);
                assert(writes_follow(c2, w));
            }
            let m = match check_written(a2, payload.len()) {
                Ok(m) => m,
                Err(e) => {
                    proof {
                        assert(answered_short(c2.last()));
                    }
                    return Err(e);
                },
            };
            total = total.saturating_add(m);
            proof {
                assert(c2 =~= ok_writes(w));
            }
        } else {
            proof {
                assert(writes_follow(c1, w));
                assert(c1 =~= ok_writes(w));
            }
        }
        Ok(total)
    }

    /// Aborts the streams run from now on.
    pub fn abort(&mut self)
        ensures
            final(self).is_aborted_spec(),
            final(self).next_seq() == old(self).next_seq(),
    {
        self.aborted = true;
    }

    /// Lifts the abort.
    pub fn reset(&mut self)
        ensures
            !final(self).is_aborted_spec(),
            final(self).next_seq() == old(self).next_seq(),
    {
        self.aborted = false;
    }

    /// True iff aborted.
    pub fn is_aborted(&self) -> (r: bool)
        ensures
            r == self.is_aborted_spec(),
    {
        self.aborted
    }
}

} // verus!
