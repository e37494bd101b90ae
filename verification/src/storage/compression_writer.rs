//! Compression of a block into a framed payload: a 16-byte header followed
//! by the compressed bytes, or by the raw bytes when compression does not help.
use vstd::prelude::*;
use crate::types::{ExofsError, ExofsResult};
use crate::bytes::{le16, le32, get32, lemma_get32_at, push_bytes, push_u16, push_u32, read_u32};
use crate::storage::compression_choice::{CompressionType, type_code};

verus! {

/// Magic of a compressed frame ("E_CO").
pub const COMPRESSED_BLOCK_MAGIC: u32 = 0x455F_434F;

/// Largest input accepted by the compressor (16 MB).
pub const MAX_COMPRESS_INPUT: usize = 16777216;

/// Size of the frame header.
pub const COMPRESS_HEADER_SIZE: usize = 16;

/// Header of a compressed frame.
#[derive(Clone, Copy, Debug)]
pub struct CompressedBlockHeader {
    pub magic: u32,
    pub algo: u8,
    pub _pad: [u8; 3],
    pub original_size: u32,
    pub compressed_size: u32,
}

/// The 16 bytes of a header.
pub open spec fn header_bytes(h: CompressedBlockHeader) -> Seq<u8> {
    le32(h.magic) + seq![h.algo] + h._pad@ + le32(h.original_size) + le32(h.compressed_size)
}

/// The bytes of a header with the block magic read back as that header:
/// long enough, the magic, the algorithm code, and both sizes.
pub proof fn lemma_header_roundtrip(h: CompressedBlockHeader)
    requires
        h.magic == COMPRESSED_BLOCK_MAGIC,
    ensures
        header_bytes(h).len() == COMPRESS_HEADER_SIZE,
        get32(header_bytes(h), 0) == COMPRESSED_BLOCK_MAGIC,
        header_bytes(h)[4] == h.algo,
        get32(header_bytes(h), 8) == h.original_size,
        get32(header_bytes(h), 12) == h.compressed_size,
{
    let b = header_bytes(h);
    assert(b.subrange(0, 4) =~= le32(h.magic));
    assert(b.subrange(8, 12) =~= le32(h.original_size));
    assert(b.subrange(12, 16) =~= le32(h.compressed_size));
    lemma_get32_at(b, 0, h.magic);
    lemma_get32_at(b, 8, h.original_size);
    lemma_get32_at(b, 12, h.compressed_size);
}

impl CompressedBlockHeader {
    /// A header for `algo`, `original` bytes stored as `compressed` bytes.
    pub fn new(algo: CompressionType, original: u32, compressed: u32) -> (r: CompressedBlockHeader)
        ensures
            r.magic == COMPRESSED_BLOCK_MAGIC,
            r.algo == type_code(algo),
            r._pad@ == seq![0u8, 0u8, 0u8],
            r.original_size == original,
            r.compressed_size == compressed,
    {
        let r = CompressedBlockHeader {
            magic: COMPRESSED_BLOCK_MAGIC,
            algo: algo.to_u8(),
            _pad: [0u8, 0u8, 0u8],
            original_size: original,
            compressed_size: compressed,
        };
        proof {
            assert(r._pad@ =~= seq![0u8, 0u8, 0u8]);
        }
        r
    }

    /// The 16 bytes of the header, little-endian.
    pub fn to_bytes(&self) -> (r: [u8; COMPRESS_HEADER_SIZE])
        ensures
            r@ == header_bytes(*self),
    {
        let m = self.magic;
        let o = self.original_size;
        let c = self.compressed_size;
        let r: [u8; COMPRESS_HEADER_SIZE] = [
            (m & 0xff) as u8, ((m >> 8) & 0xff) as u8, ((m >> 16) & 0xff) as u8, (m >> 24) as u8,
            self.algo, self._pad[0], self._pad[1], self._pad[2],
            (o & 0xff) as u8, ((o >> 8) & 0xff) as u8, ((o >> 16) & 0xff) as u8, (o >> 24) as u8,
            (c & 0xff) as u8, ((c >> 8) & 0xff) as u8, ((c >> 16) & 0xff) as u8, (c >> 24) as u8,
        ];
        proof {
            assert(r@ =~= header_bytes(*self));
        }
        r
    }

    /// Parses a header; the padding is read back as zeros.
    pub fn from_bytes(b: &[u8]) -> (r: ExofsResult<CompressedBlockHeader>)
        ensures
            b@.len() < COMPRESS_HEADER_SIZE ==> r == Err::<CompressedBlockHeader, ExofsError>(ExofsError::InvalidSize),
            b@.len() >= COMPRESS_HEADER_SIZE && get32(b@, 0) != COMPRESSED_BLOCK_MAGIC ==> r == Err::<CompressedBlockHeader, ExofsError>(
                ExofsError::BadMagic),
            b@.len() >= COMPRESS_HEADER_SIZE && get32(b@, 0) == COMPRESSED_BLOCK_MAGIC ==> (r matches Ok(h)
                && h.magic == COMPRESSED_BLOCK_MAGIC && h.algo == b@[4] && h._pad@ == seq![0u8, 0u8, 0u8]
                && h.original_size == get32(b@, 8) && h.compressed_size == get32(b@, 12)),
    {
        if b.len() < COMPRESS_HEADER_SIZE {
            return Err(ExofsError::InvalidSize);
        }
        let magic = read_u32(b, 0);
        if magic != COMPRESSED_BLOCK_MAGIC {
            return Err(ExofsError::BadMagic);
        }
        let algo = b[4];
        let original = read_u32(b, 8);
        let compressed = read_u32(b, 12);
        let r = CompressedBlockHeader { magic, algo, _pad: [0u8, 0u8, 0u8], original_size: original, compressed_size: compressed };
        proof {
            assert(r._pad@ =~= seq![0u8, 0u8, 0u8]);
        }
        Ok(r)
    }
}

/// A compressed frame.
pub struct CompressResult {
    pub data: Vec<u8>,
    pub algo: CompressionType,
    pub original_size: u32,
    /// Stored size per original size, times 1000.
    pub ratio_milli: u32,
}

impl CompressResult {
    /// Ratio in percent.
    pub fn ratio_pct(&self) -> (r: u32)
        ensures
            r == self.ratio_milli / 10,
    {
        self.ratio_milli / 10
    }

    /// True iff compression saved at least 10%.
    pub fn is_effective(&self) -> (r: bool)
        ensures
            r == (self.ratio_milli < 900),
    {
        self.ratio_milli < 900
    }

    /// Length of the frame.
    pub fn len(&self) -> (r: usize)
        ensures
            r == self.data@.len(),
    {
        self.data.len()
    }

    /// True iff the frame is empty.
    pub fn is_empty(&self) -> (r: bool)
        ensures
            r == (self.data@.len() == 0),
    {
        self.data.len() == 0
    }
}

/// The frame stored for `d`: a header for raw bytes followed by `d`.
pub open spec fn stored_frame(d: Seq<u8>) -> Seq<u8> {
    le32(COMPRESSED_BLOCK_MAGIC) + seq![0u8, 0u8, 0u8, 0u8] + le32(d.len() as u32) + le32(d.len() as u32) + d
}

/// Compressor for one algorithm.
pub struct CompressWriter {
    algo: CompressionType,
}

impl CompressWriter {
    /// The configured algorithm (spec).
    pub closed spec fn algo_spec(&self) -> CompressionType {
        self.algo
    }

    /// A compressor for `algo`.
    pub fn new(algo: CompressionType) -> (r: CompressWriter)
        ensures
            r.algo_spec() == algo,
    {
        CompressWriter { algo }
    }

    /// A compressor that stores data raw.
    pub fn none() -> (r: CompressWriter)
        ensures
            r.algo_spec() == CompressionType::Uncompressed,
    {
        CompressWriter { algo: CompressionType::Uncompressed }
    }

    /// An LZ4 compressor.
    pub fn lz4() -> (r: CompressWriter)
        ensures
            r.algo_spec() == CompressionType::Lz4,
    {
        CompressWriter { algo: CompressionType::Lz4 }
    }

    /// A zstd compressor.
    pub fn zstd() -> (r: CompressWriter)
        ensures
            r.algo_spec() == CompressionType::Zstd,
    {
        CompressWriter { algo: CompressionType::Zstd }
    }

    /// Compresses `data` into a frame. The encoders emit literal-only
    /// streams, which are never shorter than their input, so the frame always
    /// falls back to the raw bytes.
    pub fn compress(&self, data: &[u8]) -> (r: ExofsResult<CompressResult>)
        ensures
            data@.len() > MAX_COMPRESS_INPUT ==> r == Err::<CompressResult, ExofsError>(ExofsError::InvalidSize),
            data@.len() <= MAX_COMPRESS_INPUT ==> (r matches Ok(c) && c.data@ == stored_frame(data@)
                && c.algo == CompressionType::Uncompressed && c.original_size == data@.len() && c.ratio_milli == 1000),
    {
        if data.len() > MAX_COMPRESS_INPUT {
            return Err(ExofsError::InvalidSize);
        }
        let original_size = data.len() as u32;
        let (compressed, effective_algo) = match self.algo {
            CompressionType::Uncompressed => (to_vec_safe(data)?, CompressionType::Uncompressed),
            CompressionType::Lz4 => {
                let c = lz4_compress(data)?;
                proof {
                    lemma_lz4_longer(data@);
                }
                if c.len() >= data.len() {
                    (to_vec_safe(data)?, CompressionType::Uncompressed)
                } else {
                    (c, CompressionType::Lz4)
                }
            },
            CompressionType::Zstd => {
                let c = zstd_compress(data)?;
                if c.len() >= data.len() {
                    (to_vec_safe(data)?, CompressionType::Uncompressed)
                } else {
                    (c, CompressionType::Zstd)
                }
            },
        };
        assert(compressed@ == data@ && effective_algo == CompressionType::Uncompressed);
        let compressed_size = compressed.len() as u32;
        let hdr = CompressedBlockHeader::new(effective_algo, original_size, compressed_size);
        let hdr_bytes = hdr.to_bytes();
        if COMPRESS_HEADER_SIZE.checked_add(compressed.len()).is_none() {
            return Err(ExofsError::Overflow);
        }
        let mut out: Vec<u8> = Vec::new();
        push_bytes(&mut out, &hdr_bytes);
        push_bytes(&mut out, compressed.as_slice());
        let ratio_milli: u32 = if original_size == 0 {
            1000
        } else {
            proof {
                assert(compressed_size * 1000 / (original_size as int) == 1000) by (nonlinear_arith)
                    requires compressed_size == original_size, original_size > 0;
            }
            ((compressed_size as u64 * 1000) / original_size as u64) as u32
        };
        proof {
            assert(out@ =~= stored_frame(data@));
        }
        Ok(CompressResult { data: out, algo: effective_algo, original_size, ratio_milli })
    }

    /// The configured algorithm.
    pub fn algorithm(&self) -> (r: CompressionType)
        ensures
            r == self.algo_spec(),
    {
        self.algo
    }
}

fn to_vec_safe(data: &[u8]) -> (r: ExofsResult<Vec<u8>>)
    ensures
        r matches Ok(v) && v@ == data@,
{
    let mut v: Vec<u8> = Vec::new();
    push_bytes(&mut v, data);
    Ok(v)
}

/// Largest literal run of one LZ4 sequence.
pub const LZ4_MAX_RUN: usize = 3840;

/// The token and length bytes of a literal run of `n <= 3840` bytes.
pub open spec fn lit_header(n: nat) -> Seq<u8> {
    if n < 15 {
        seq![(n * 16) as u8]
    } else {
        seq![0xf0u8] + Seq::new(((n - 15) / 255) as nat, |i: int| 255u8) + seq![((n - 15) % 255) as u8]
    }
}

/// Literal-only LZ4 sequences of `s`, runs of at most 3840 bytes.
pub open spec fn lz4_body(s: Seq<u8>) -> Seq<u8>
    decreases s.len(),
{
    if s.len() == 0 {
        Seq::empty()
    } else {
        let k = if s.len() < LZ4_MAX_RUN { s.len() as int } else { LZ4_MAX_RUN as int };
        lit_header(k as nat) + s.subrange(0, k) + lz4_body(s.subrange(k, s.len() as int))
    }
}

/// The LZ4 encoding of `s`: literal sequences then four zero bytes.
pub open spec fn lz4_spec(s: Seq<u8>) -> Seq<u8> {
    lz4_body(s) + seq![0u8, 0u8, 0u8, 0u8]
}

/// An LZ4 encoding is longer than its input.
pub proof fn lemma_lz4_longer(s: Seq<u8>)
    ensures
        lz4_body(s).len() >= s.len(),
        lz4_spec(s).len() > s.len(),
    decreases s.len(),
{
    if s.len() > 0 {
        let k = if s.len() < LZ4_MAX_RUN { s.len() as int } else { LZ4_MAX_RUN as int };
        lemma_lz4_longer(s.subrange(k, s.len() as int));
    }
}

/// Encodes `input` as literal-only LZ4 sequences.
fn lz4_compress(input: &[u8]) -> (r: ExofsResult<Vec<u8>>)
    ensures
        r matches Ok(v) && v@ == lz4_spec(input@),
{
    let mut out: Vec<u8> = Vec::new();
    let mut pos: usize = 0;
    proof {
        assert(input@.subrange(0, input@.len() as int) == input@);
    }
    while pos < input.len()
        invariant
            0 <= pos <= input@.len(),
            out@ + lz4_body(input@.subrange(pos as int, input@.len() as int)) == lz4_body(input@),
        decreases input.len() - pos,
    {
        let remaining = input.len() - pos;
        let literal_run = if remaining < LZ4_MAX_RUN { remaining } else { LZ4_MAX_RUN };
        let ghost before = out@;
        if literal_run < 15 {
            out.push(((literal_run as u8) << 4u8) as u8);
            proof {
                assert(((literal_run as u8) << 4u8) as u8 == (literal_run * 16) as u8) by (bit_vector)
                    requires literal_run < 15;
            }
        } else {
            out.push(0xf0u8);
            let extra = literal_run - 15;
            let full = extra / 255;
            let rem = extra % 255;
            let mut k: usize = 0;
            while k < full
                invariant
                    0 <= k <= full,
                    out@ == before.push(0xf0u8) + Seq::new(k as nat, |i: int| 255u8),
                decreases full - k,
            {
                out.push(255u8);
                proof {
                    assert(before.push(0xf0u8) + Seq::new((k + 1) as nat, |i: int| 255u8) =~= (before.push(0xf0u8) + Seq::new(
                        k as nat, |i: int| 255u8)).push(255u8));
                }
                k += 1;
            }
            out.push(rem as u8);
        }
        proof {
            assert(out@ =~= before + lit_header(literal_run as nat));
        }
        let chunk = vstd::slice::slice_subrange(input, pos, pos + literal_run);
        push_bytes(&mut out, chunk);
        proof {
            let s = input@.subrange(pos as int, input@.len() as int);
            assert(s.subrange(0, literal_run as int) =~= chunk@);
            assert(s.subrange(literal_run as int, s.len() as int) =~= input@.subrange(pos + literal_run, input@.len() as int));
            assert(lz4_body(s) == lit_header(literal_run as nat) + chunk@ + lz4_body(input@.subrange(pos + literal_run, input@.len() as int)));
            assert(out@ + lz4_body(input@.subrange(pos + literal_run, input@.len() as int)) =~= before + lz4_body(s));
        }
        pos = pos + literal_run;
    }
    let ghost body = out@;
    out.push(0u8);
    out.push(0u8);
    out.push(0u8);
    out.push(0u8);
    proof {
        assert(input@.subrange(pos as int, input@.len() as int) =~= Seq::<u8>::empty());
        assert(out@ =~= lz4_spec(input@));
    }
    Ok(out)
}

/// The zstd frame of `s`: magic, descriptor, content size, one raw last block.
pub open spec fn zstd_spec(s: Seq<u8>) -> Seq<u8> {
    let n = s.len();
    let fcs = if n <= 0xff { seq![n as u8] } else if n <= 0xffff { le16(n as u16) } else { le32(n as u32) };
    seq![0x28u8, 0xb5u8, 0x2fu8, 0xfdu8, 0x60u8] + fcs + le32((((n as u32) as int * 8) % 0x1_0000_0000 + 1) as u32) + s
}

/// Encodes `input` as a zstd frame with one raw block.
fn zstd_compress(input: &[u8]) -> (r: ExofsResult<Vec<u8>>)
    ensures
        r matches Ok(v) && v@ == zstd_spec(input@),
{
    let mut out: Vec<u8> = Vec::new();
    out.push(0x28u8);
    out.push(0xb5u8);
    out.push(0x2fu8);
    out.push(0xfdu8);
    out.push(0x60u8);
    if input.len() <= 0xff {
        out.push(input.len() as u8);
    } else if input.len() <= 0xffff {
        push_u16(&mut out, input.len() as u16);
    } else {
        push_u32(&mut out, input.len() as u32);
    }
    let block_size = input.len() as u32;
    let bh_val = (block_size << 3u32) | 1u32;
    proof {
        assert((block_size << 3u32) | 1u32 == ((block_size as int * 8) % 0x1_0000_0000 + 1) as u32) by (bit_vector);
    }
    push_u32(&mut out, bh_val);
    push_bytes(&mut out, input);
    proof {
        assert(out@ =~= zstd_spec(input@));
    }
    Ok(out)
}

} // verus!
