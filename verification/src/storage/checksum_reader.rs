//! Reading framed data back and checking its Blake3 tag.
use vstd::prelude::*;
use crate::types::{DiskOffset, ExofsError, ExofsResult};
use crate::hash::{blake3_hash, blake3_spec, digest_eq};
use crate::bytes::{get32, push_bytes, read_u32};
use crate::storage::checksum_writer::{
    ChecksumTag, CHECKSUM_TAG_LEN, CHECKSUM_MAGIC, split_framed, verify_checksum, split_spec, tag_start,
    verify_framed_spec,
};

verus! {

/// The frame has room for a tag and the tag starts with the magic.
pub open spec fn header_ok(f: Seq<u8>) -> bool {
    f.len() >= CHECKSUM_TAG_LEN && get32(f, tag_start(f)) == CHECKSUM_MAGIC
}

/// The data part of a frame.
pub open spec fn frame_data(f: Seq<u8>) -> Seq<u8> {
    f.subrange(0, tag_start(f))
}

/// The digest stored in the tag of a frame.
pub open spec fn frame_hash(f: Seq<u8>) -> Seq<u8> {
    f.subrange(tag_start(f) + 4, f.len() as int)
}

/// The data of a well-formed frame matches its digest.
pub open spec fn frame_intact(f: Seq<u8>) -> bool {
    blake3_spec(frame_data(f)) == frame_hash(f)
}

/// Data read back with both digests.
#[derive(Clone, Debug)]
pub struct VerifyResult {
    pub data: Vec<u8>,
    pub stored_hash: [u8; 32],
    pub computed_hash: [u8; 32],
    pub data_bytes: u64,
}

impl VerifyResult {
    /// True iff the stored and computed digests agree.
    pub fn is_valid(&self) -> (r: bool)
        ensures
            r == (self.stored_hash@ == self.computed_hash@),
    {
        digest_eq(&self.stored_hash, &self.computed_hash)
    }
}

/// Reader over a frame whose tag header was checked.
pub struct ChecksumReader<'a> {
    framed: &'a [u8],
}

impl<'a> ChecksumReader<'a> {
    #[verifier::type_invariant]
    spec fn inv(self) -> bool {
        header_ok(self.framed@)
    }

    /// The frame (spec).
    pub closed spec fn frame(&self) -> Seq<u8> {
        self.framed@
    }

    /// A reader over `framed`; the tag must be present and start with the magic.
    pub fn new(framed: &'a [u8]) -> (r: ExofsResult<ChecksumReader<'a>>)
        ensures
            framed@.len() < CHECKSUM_TAG_LEN ==> (r matches Err(e) && e == ExofsError::InvalidSize),
            framed@.len() >= CHECKSUM_TAG_LEN && !header_ok(framed@) ==> (r matches Err(e) && e == ExofsError::BadMagic),
            header_ok(framed@) ==> (r matches Ok(rd) && rd.frame() == framed@),
    {
        if framed.len() < CHECKSUM_TAG_LEN {
            return Err(ExofsError::InvalidSize);
        }
        let tag_start = framed.len() - CHECKSUM_TAG_LEN;
        let magic = read_u32(framed, tag_start);
        if magic != CHECKSUM_MAGIC {
            return Err(ExofsError::BadMagic);
        }
        Ok(ChecksumReader { framed })
    }

    /// The data, once its digest matches the tag.
    pub fn data_verified(&self) -> (r: ExofsResult<&'a [u8]>)
        ensures
            header_ok(self.frame()),
            frame_intact(self.frame()) ==> (r matches Ok(d) && d@ == frame_data(self.frame())),
            !frame_intact(self.frame()) ==> (r matches Err(e) && e == ExofsError::ChecksumMismatch),
    {
        proof {
            use_type_invariant(self);
        }
        let (data, tag) = split_framed(self.framed)?;
        let computed = blake3_hash(data);
        if !digest_eq(&computed, &tag.hash) {
            return Err(ExofsError::ChecksumMismatch);
        }
        Ok(data)
    }

    /// The data copied out, with the stored and computed digests.
    pub fn verify(&self) -> (r: ExofsResult<VerifyResult>)
        ensures
            r matches Ok(v) && v.data@ == frame_data(self.frame()) && v.stored_hash@ == frame_hash(self.frame())
                && v.computed_hash@ == blake3_spec(frame_data(self.frame())) && v.data_bytes == frame_data(self.frame()).len(),
    {
        proof {
            use_type_invariant(self);
        }
        let (data_slice, tag) = split_framed(self.framed)?;
        let computed = blake3_hash(data_slice);
        let mut data: Vec<u8> = Vec::new();
        push_bytes(&mut data, data_slice);
        Ok(VerifyResult {
            data,
            stored_hash: tag.hash,
            computed_hash: computed,
            data_bytes: data_slice.len() as u64,
        })
    }

    /// The data, unchecked.
    pub fn data_unchecked(&self) -> (r: &'a [u8])
        ensures
            r@ == frame_data(self.frame()),
    {
        proof {
            use_type_invariant(self);
        }
        let tag_start = self.framed.len() - CHECKSUM_TAG_LEN;
        vstd::slice::slice_subrange(self.framed, 0, tag_start)
    }

    /// The tag.
    pub fn tag(&self) -> (r: ExofsResult<ChecksumTag>)
        ensures
            r matches Ok(t) && t.magic == CHECKSUM_MAGIC && t.hash@ == frame_hash(self.frame()),
    {
        proof {
            use_type_invariant(self);
        }
        let tag_start = self.framed.len() - CHECKSUM_TAG_LEN;
        let tail = vstd::slice::slice_subrange(self.framed, tag_start, self.framed.len());
        proof {
            assert(get32(tail@, 0) == get32(self.framed@, tag_start as int));
            assert(tail@.subrange(4, 36) =~= frame_hash(self.framed@));
        }
        ChecksumTag::from_bytes(tail)
    }

    /// Length of the frame.
    pub fn framed_len(&self) -> (r: usize)
        ensures
            r == self.frame().len(),
    {
        self.framed.len()
    }

    /// Length of the data.
    pub fn data_len(&self) -> (r: usize)
        ensures
            r == frame_data(self.frame()).len(),
    {
        proof {
            use_type_invariant(self);
        }
        self.framed.len() - CHECKSUM_TAG_LEN
    }
}

/// Accumulates a stream and compares its digest with an expected one.
pub struct ChecksumStreamVerifier {
    accumulator: Vec<u8>,
    expected: [u8; 32],
    finalized: bool,
}

impl ChecksumStreamVerifier {
    /// Bytes fed so far (spec).
    pub closed spec fn fed(&self) -> Seq<u8> {
        self.accumulator@
    }

    /// Expected digest (spec).
    pub closed spec fn expected_spec(&self) -> Seq<u8> {
        self.expected@
    }

    /// True once finalized (spec).
    pub closed spec fn done(&self) -> bool {
        self.finalized
    }

    /// A verifier expecting `expected`.
    pub fn new(expected: [u8; 32]) -> (r: ChecksumStreamVerifier)
        ensures
            r.fed() == Seq::<u8>::empty(),
            r.expected_spec() == expected@,
            !r.done(),
    {
        ChecksumStreamVerifier { accumulator: Vec::new(), expected, finalized: false }
    }

    /// Feeds a chunk.
    pub fn feed(&mut self, data: &[u8]) -> (r: ExofsResult<()>)
        ensures
            final(self).expected_spec() == old(self).expected_spec(),
            final(self).done() == old(self).done(),
            old(self).done() ==> r == Err::<(), ExofsError>(ExofsError::InvalidState) && final(self).fed() == old(self).fed(),
            !old(self).done() ==> r == Ok::<(), ExofsError>(()) && final(self).fed() == old(self).fed() + data@,
    {
        if self.finalized {
            return Err(ExofsError::InvalidState);
        }
        push_bytes(&mut self.accumulator, data);
        Ok(())
    }

    /// Ends the stream: whether its digest is the expected one.
    pub fn finalize(&mut self) -> (r: ExofsResult<bool>)
        ensures
            final(self).done(),
            final(self).fed() == old(self).fed(),
            final(self).expected_spec() == old(self).expected_spec(),
            old(self).done() ==> r == Err::<bool, ExofsError>(ExofsError::InvalidState),
            !old(self).done() ==> r == Ok::<bool, ExofsError>(blake3_spec(old(self).fed()) == old(self).expected_spec()),
    {
        if self.finalized {
            return Err(ExofsError::InvalidState);
        }
        self.finalized = true;
        let got = blake3_hash(self.accumulator.as_slice());
        Ok(digest_eq(&got, &self.expected))
    }

    /// Bytes fed so far.
    pub fn bytes_fed(&self) -> (r: u64)
        ensures
            r == self.fed().len(),
    {
        self.accumulator.len() as u64
    }

    /// The expected digest.
    pub fn expected(&self) -> (r: &[u8; 32])
        ensures
            r@ == self.expected_spec(),
    {
        &self.expected
    }

    /// True once finalized.
    pub fn is_finalized(&self) -> (r: bool)
        ensures
            r == self.done(),
    {
        self.finalized
    }
}

/// The outcome of reading a frame with its checks.
pub open spec fn read_verified_spec(f: Seq<u8>) -> ExofsResult<Seq<u8>> {
    if f.len() < CHECKSUM_TAG_LEN {
        Err(ExofsError::InvalidSize)
    } else if !header_ok(f) {
        Err(ExofsError::BadMagic)
    } else if !frame_intact(f) {
        Err(ExofsError::ChecksumMismatch)
    } else {
        Ok(frame_data(f))
    }
}

/// The data of a frame, when its header and digest check out.
pub fn read_and_verify(framed: &[u8]) -> (r: ExofsResult<Vec<u8>>)
    ensures
        read_verified_spec(framed@) matches Err(e) ==> r == Err::<Vec<u8>, ExofsError>(e),
        read_verified_spec(framed@) matches Ok(d) ==> (r matches Ok(v) && v@ == d),
{
    let reader = ChecksumReader::new(framed)?;
    let data = reader.data_verified()?;
    let mut out: Vec<u8> = Vec::new();
    push_bytes(&mut out, data);
    Ok(out)
}

/// True iff the frame's header and digest check out.
pub fn is_integrity_ok(framed: &[u8]) -> (r: bool)
    ensures
        r == (read_verified_spec(framed@) is Ok),
{
    match ChecksumReader::new(framed) {
        Ok(reader) => reader.data_verified().is_ok(),
        Err(_) => false,
    }
}

/// The digest stored in the frame's tag.
pub fn extract_hash(framed: &[u8]) -> (r: ExofsResult<[u8; 32]>)
    ensures
        framed@.len() < CHECKSUM_TAG_LEN ==> r == Err::<[u8; 32], ExofsError>(ExofsError::InvalidSize),
        framed@.len() >= CHECKSUM_TAG_LEN && !header_ok(framed@) ==> r == Err::<[u8; 32], ExofsError>(ExofsError::BadMagic),
        header_ok(framed@) ==> (r matches Ok(h) && h@ == frame_hash(framed@)),
{
    let reader = ChecksumReader::new(framed)?;
    let tag = reader.tag()?;
    Ok(tag.hash)
}

/// True iff the digest of `data` is `stored_hash`.
pub fn verify_raw(data: &[u8], stored_hash: &[u8; 32]) -> (r: bool)
    ensures
        r == (blake3_spec(data@) == stored_hash@),
{
    verify_checksum(data, stored_hash)
}

/// True iff `a` and `b` have the same digest.
pub fn hashes_match(a: &[u8], b: &[u8]) -> (r: bool)
    ensures
        r == (blake3_spec(a@) == blake3_spec(b@)),
{
    let ha = blake3_hash(a);
    let hb = blake3_hash(b);
    digest_eq(&ha, &hb)
}

/// Reason given for a frame whose tag header is wrong.
pub const REASON_BAD_MAGIC: &'static str = "bad_magic";

/// Reason given for a frame whose data does not match its digest.
pub const REASON_MISMATCH: &'static str = "checksum_mismatch";

/// Validation outcome of one block.
#[derive(Clone, Copy, Debug)]
pub struct BlockValidationResult {
    pub offset: DiskOffset,
    pub ok: bool,
    pub reason: Option<&'static str>,
}

/// Outcomes of a validation pass.
#[derive(Debug)]
pub struct ChecksumValidationReport {
    pub results: Vec<BlockValidationResult>,
    pub ok_count: u64,
    pub fail_count: u64,
}

impl ChecksumValidationReport {
    /// An empty report.
    pub fn new() -> (r: ChecksumValidationReport)
        ensures
            r.results@.len() == 0 && r.ok_count == 0 && r.fail_count == 0,
    {
        ChecksumValidationReport { results: Vec::new(), ok_count: 0, fail_count: 0 }
    }

    /// Records a valid block.
    pub fn add_ok(&mut self, offset: DiskOffset) -> (r: ExofsResult<()>)
        ensures
            r == Ok::<(), ExofsError>(()),
            final(self).results@ == old(self).results@.push(BlockValidationResult { offset, ok: true, reason: None }),
            final(self).ok_count == (if old(self).ok_count == u64::MAX { u64::MAX } else { (old(self).ok_count + 1) as u64 }),
            final(self).fail_count == old(self).fail_count,
    {
        self.results.push(BlockValidationResult { offset, ok: true, reason: None });
        self.ok_count = self.ok_count.saturating_add(1);
        Ok(())
    }

    /// Records an invalid block.
    pub fn add_fail(&mut self, offset: DiskOffset, reason: &'static str) -> (r: ExofsResult<()>)
        ensures
            r == Ok::<(), ExofsError>(()),
            final(self).results@ == old(self).results@.push(BlockValidationResult { offset, ok: false, reason: Some(reason) }),
            final(self).fail_count == (if old(self).fail_count == u64::MAX { u64::MAX } else { (old(self).fail_count + 1) as u64 }),
            final(self).ok_count == old(self).ok_count,
    {
        self.results.push(BlockValidationResult { offset, ok: false, reason: Some(reason) });
        self.fail_count = self.fail_count.saturating_add(1);
        Ok(())
    }

    /// True iff no block failed.
    pub fn all_ok(&self) -> (r: bool)
        ensures
            r == (self.fail_count == 0),
    {
        self.fail_count == 0
    }

    /// Blocks checked (saturating).
    pub fn total(&self) -> (r: u64)
        ensures
            r == (if self.ok_count + self.fail_count > u64::MAX { u64::MAX as int } else { self.ok_count + self.fail_count }),
    {
        self.ok_count.saturating_add(self.fail_count)
    }

    /// Offsets of the failed blocks, in order.
    pub fn error_offsets(&self) -> (r: Vec<DiskOffset>)
        ensures
            r@ == self.results@.filter(|x: BlockValidationResult| !x.ok).map_values(|x: BlockValidationResult| x.offset),
    {
        let mut out: Vec<DiskOffset> = Vec::new();
        let mut i: usize = 0;
        while i < self.results.len()
            invariant
                0 <= i <= self.results@.len(),
                out@ == self.results@.subrange(0, i as int).filter(|x: BlockValidationResult| !x.ok).map_values(
                    |x: BlockValidationResult| x.offset),
            decreases self.results.len() - i,
        {
            proof {
                assert(self.results@.subrange(0, i + 1).drop_last() == self.results@.subrange(0, i as int));
                reveal(Seq::filter);
            }
            if !self.results[i].ok {
                out.push(self.results[i].offset);
                proof {
                    let f = self.results@.subrange(0, i as int).filter(|x: BlockValidationResult| !x.ok);
                    assert(f.push(self.results@[i as int]).map_values(|x: BlockValidationResult| x.offset) =~= f.map_values(
                        |x: BlockValidationResult| x.offset).push(self.results@[i as int].offset));
                }
            }
            i += 1;
        }
        proof {
            assert(self.results@.subrange(0, self.results@.len() as int) == self.results@);
        }
        out
    }
}

/// Validation outcome of the frame `f` at `off`.
pub open spec fn frame_verdict(off: DiskOffset, f: Seq<u8>) -> BlockValidationResult {
    if !header_ok(f) {
        BlockValidationResult { offset: off, ok: false, reason: Some(REASON_BAD_MAGIC) }
    } else if !frame_intact(f) {
        BlockValidationResult { offset: off, ok: false, reason: Some(REASON_MISMATCH) }
    } else {
        BlockValidationResult { offset: off, ok: true, reason: None }
    }
}

/// Checks frames in bulk.
pub struct BatchFrameVerifier;

impl BatchFrameVerifier {
    /// Checks every frame in order and reports each outcome.
    pub fn verify_all(frames: &[(DiskOffset, &[u8])]) -> (r: ExofsResult<ChecksumValidationReport>)
        ensures
            r matches Ok(rep) && rep.results@.len() == frames@.len()
                && (forall|i: int| 0 <= i < frames@.len() ==> #[trigger] rep.results@[i] == frame_verdict(frames@[i].0, frames@[i].1@))
                && rep.ok_count + rep.fail_count == frames@.len(),
    {
        let mut report = ChecksumValidationReport::new();
        let mut i: usize = 0;
        while i < frames.len()
            invariant
                0 <= i <= frames@.len(),
                report.results@.len() == i,
                report.ok_count + report.fail_count == i,
                forall|k: int| 0 <= k < i ==> #[trigger] report.results@[k] == frame_verdict(frames@[k].0, frames@[k].1@),
            decreases frames.len() - i,
        {
            let (offset, framed) = frames[i];
            let ghost before = report.results@;
            match ChecksumReader::new(framed) {
                Err(_) => {
                    report.add_fail(offset, REASON_BAD_MAGIC)?;
                },
                Ok(reader) => {
                    match reader.data_verified() {
                        Ok(_) => {
                            report.add_ok(offset)?;
                        },
                        Err(_) => {
                            report.add_fail(offset, REASON_MISMATCH)?;
                        },
                    }
                },
            }
            proof {
                assert forall|k: int| 0 <= k < i + 1 implies #[trigger] report.results@[k] == frame_verdict(frames@[k].0, frames@[k].1@) by {
                    if k < i {
                        assert(report.results@[k] == before[k]);
                    }
                }
            }
            i += 1;
        }
        Ok(report)
    }
}

/// How a read treats a digest mismatch.
#[derive(Clone, Copy, Debug, PartialEq, Eq, Structural)]
pub enum VerifyMode {
    /// A mismatch is an error.
    Strict,
    /// A mismatch is reported and the data returned.
    Permissive,
}

/// Reads the data of a frame; returns it with whether its digest matched.
pub fn read_with_mode(framed: &[u8], mode: VerifyMode) -> (r: ExofsResult<(Vec<u8>, bool)>)
    ensures
        framed@.len() < CHECKSUM_TAG_LEN ==> (r matches Err(e) && e == ExofsError::InvalidSize),
        framed@.len() >= CHECKSUM_TAG_LEN && !header_ok(framed@) ==> (r matches Err(e) && e == ExofsError::BadMagic),
        header_ok(framed@) && !frame_intact(framed@) && mode == VerifyMode::Strict ==> (r matches Err(e)
            && e == ExofsError::ChecksumMismatch),
        header_ok(framed@) && (frame_intact(framed@) || mode == VerifyMode::Permissive) ==> (r matches Ok(p)
            && p.0@ == frame_data(framed@) && p.1 == frame_intact(framed@)),
{
    if framed.len() < CHECKSUM_TAG_LEN {
        return Err(ExofsError::InvalidSize);
    }
    let tag_start = framed.len() - CHECKSUM_TAG_LEN;
    let magic = read_u32(framed, tag_start);
    if magic != CHECKSUM_MAGIC {
        return Err(ExofsError::BadMagic);
    }
    let data_slice = vstd::slice::slice_subrange(framed, 0, tag_start);
    let tail = vstd::slice::slice_subrange(framed, tag_start, framed.len());
    proof {
        assert(get32(tail@, 0) == get32(framed@, tag_start as int));
        assert(tail@.subrange(4, 36) =~= frame_hash(framed@));
    }
    let tag = ChecksumTag::from_bytes(tail)?;
    let computed = blake3_hash(data_slice);
    let valid = digest_eq(&computed, &tag.hash);
    if !valid && mode == VerifyMode::Strict {
        return Err(ExofsError::ChecksumMismatch);
    }
    let mut data: Vec<u8> = Vec::new();
    push_bytes(&mut data, data_slice);
    Ok((data, valid))
}

} // verus!
