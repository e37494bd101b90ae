//! Decompression of framed payloads.
use vstd::prelude::*;
use crate::types::{ExofsError, ExofsResult};
use crate::bytes::{get16, get32, push_bytes, read_u16, read_u32};
use crate::storage::compression_choice::{CompressionType, type_code};
use crate::storage::compression_writer::{
    CompressedBlockHeader, COMPRESS_HEADER_SIZE, COMPRESSED_BLOCK_MAGIC, stored_frame, MAX_COMPRESS_INPUT,
};

verus! {

/// `a - b`, or 0 when `b > a`.
pub open spec fn sub0(a: int, b: int) -> int {
    if a > b { a - b } else { 0 }
}

/// Reads an LZ4 length extension from `ip`: bytes are added to `acc` until
/// one differs from 255. Returns the position after it and the length.
pub open spec fn ext_len(input: Seq<u8>, ip: int, acc: int) -> ExofsResult<(int, int)>
    decreases input.len() - ip,
{
    if ip < 0 || ip >= input.len() {
        Err(ExofsError::DecompressError)
    } else if acc + input[ip] > usize::MAX {
        Err(ExofsError::Overflow)
    } else if input[ip] != 255 {
        Ok((ip + 1, acc + input[ip]))
    } else {
        ext_len(input, ip + 1, acc + input[ip])
    }
}

/// A length extension ends after its start.
pub proof fn lemma_ext_ahead(input: Seq<u8>, ip: int, acc: int)
    ensures
        ext_len(input, ip, acc) matches Ok(p) ==> ip < p.0 <= input.len() && p.1 >= acc && p.1 <= usize::MAX,
    decreases input.len() - ip,
{
    if !(ip < 0 || ip >= input.len()) && acc + input[ip] <= usize::MAX && input[ip] == 255 {
        lemma_ext_ahead(input, ip + 1, acc + input[ip]);
    }
}

/// The `mlen` bytes of a back-reference at distance `off` from the end of
/// `out` (the copy may overlap what it produces, so it repeats with period `off`).
pub open spec fn match_copy(out: Seq<u8>, off: int, mlen: int) -> Seq<u8> {
    Seq::new(mlen as nat, |k: int| out[out.len() - off + k % off])
}

/// LZ4 decoding of `input` from position `ip`, with `out` decoded so far.
/// Decoding stops before the last four bytes of the input.
pub open spec fn lz4_from(input: Seq<u8>, ip: int, out: Seq<u8>) -> ExofsResult<Seq<u8>>
    decreases input.len() - ip,
{
    let lim = sub0(input.len() as int, 4);
    if ip < 0 || ip >= lim {
        Ok(out)
    } else {
        let token = input[ip];
        let lit = if (token >> 4u8) == 15 { ext_len(input, ip + 1, 15) } else { Ok((ip + 1, (token >> 4u8) as int)) };
        match lit {
            Err(e) => Err(e),
            Ok(p) => {
                let ip2 = p.0;
                let llen = p.1;
                if ip2 + llen > usize::MAX {
                    Err(ExofsError::Overflow)
                } else if ip2 + llen > lim {
                    let l = if llen < sub0(lim, ip2) { llen } else { sub0(lim, ip2) };
                    Ok(out + input.subrange(ip2, ip2 + l))
                } else {
                    let out1 = out + input.subrange(ip2, ip2 + llen);
                    let ip3 = ip2 + llen;
                    if ip3 >= lim {
                        Ok(out1)
                    } else if ip3 + 2 > input.len() {
                        Err(ExofsError::DecompressError)
                    } else {
                        let off = get16(input, ip3) as int;
                        let ip4 = ip3 + 2;
                        let m0 = (token & 15u8) as int + 4;
                        let mm = if (token & 15u8) == 15 { ext_len(input, ip4, m0) } else { Ok((ip4, m0)) };
                        match mm {
                            Err(e) => Err(e),
                            Ok(q) => {
                                if off > out1.len() || off == 0 {
                                    Err(ExofsError::DecompressError)
                                } else {
                                    proof {
                                        lemma_ext_ahead(input, ip + 1, 15);
                                        lemma_ext_ahead(input, ip4, m0);
                                    }
                                    lz4_from(input, q.0, out1 + match_copy(out1, off, q.1))
                                }
                            },
                        }
                    }
                }
            },
        }
    }
}

/// Result of decompressing a frame.
pub struct DecompressResult {
    pub data: Vec<u8>,
    pub algo: CompressionType,
    pub original_size: u32,
    pub ratio_milli: u32,
}

/// The bytes of `n` copies of `b`.
pub open spec fn repeat(b: u8, n: nat) -> Seq<u8> {
    Seq::new(n, |i: int| b)
}

/// Size of the content-size field for a frame-header descriptor byte.
pub open spec fn fcs_size(fhd: u8) -> int {
    let id = (fhd >> 6u8) & 3u8;
    if id == 0 { 1 } else if id == 1 { 2 } else if id == 2 { 4 } else { 8 }
}

/// Decoding of a single-block zstd frame (raw or repeated-byte block).
pub open spec fn zstd_dec_spec(input: Seq<u8>, expected: nat) -> ExofsResult<Seq<u8>> {
    if input.len() < 6 {
        Err(ExofsError::InvalidSize)
    } else if !(input[0] == 0x28 && input[1] == 0xb5 && input[2] == 0x2f && input[3] == 0xfd) {
        Err(ExofsError::BadMagic)
    } else {
        let pos = 5 + fcs_size(input[4]);
        if pos + 4 > input.len() {
            Err(ExofsError::InvalidSize)
        } else {
            let bh = (input[pos] as u32) | ((input[pos + 1] as u32) << 8u32) | ((input[pos + 2] as u32) << 16u32);
            let bt = (bh >> 1u32) & 3u32;
            let bs = (bh >> 3u32) as int;
            let p2 = pos + 3;
            if p2 + bs > input.len() {
                Err(ExofsError::InvalidSize)
            } else if bt == 1 {
                Ok(input.subrange(p2, p2 + bs))
            } else if bt == 2 {
                if bs == 0 { Err(ExofsError::DecompressError) } else { Ok(repeat(input[p2], expected)) }
            } else {
                Err(ExofsError::DecompressError)
            }
        }
    }
}

/// Decoding of a payload with algorithm `algo`.
pub open spec fn decode_spec(payload: Seq<u8>, algo: CompressionType, expected: nat) -> ExofsResult<Seq<u8>> {
    match algo {
        CompressionType::Uncompressed => Ok(payload),
        CompressionType::Lz4 => lz4_from(payload, 0, Seq::empty()),
        CompressionType::Zstd => zstd_dec_spec(payload, expected),
    }
}

/// The frame's header is present and starts with the magic.
pub open spec fn frame_header_ok(f: Seq<u8>) -> bool {
    f.len() >= COMPRESS_HEADER_SIZE && get32(f, 0) == COMPRESSED_BLOCK_MAGIC
}

/// The algorithm recorded in a frame's header, if valid.
pub open spec fn frame_algo(f: Seq<u8>) -> Option<CompressionType> {
    if f[4] == 0 { Some(CompressionType::Uncompressed) } else if f[4] == 1 { Some(CompressionType::Lz4) } else if f[4] == 2 {
        Some(CompressionType::Zstd)
    } else {
        None
    }
}

/// The content of a frame, or why it cannot be read.
pub open spec fn decompress_spec(f: Seq<u8>) -> ExofsResult<Seq<u8>> {
    if f.len() < COMPRESS_HEADER_SIZE {
        Err(ExofsError::InvalidSize)
    } else if get32(f, 0) != COMPRESSED_BLOCK_MAGIC {
        Err(ExofsError::BadMagic)
    } else {
        let csize = get32(f, 12) as int;
        let osize = get32(f, 8) as int;
        if f.len() - COMPRESS_HEADER_SIZE < csize {
            Err(ExofsError::InvalidSize)
        } else {
            match frame_algo(f) {
                None => Err(ExofsError::InvalidArgument),
                Some(a) => match decode_spec(f.subrange(16, 16 + csize), a, osize as nat) {
                    Err(e) => Err(e),
                    Ok(d) => if d.len() != osize { Err(ExofsError::DecompressError) } else { Ok(d) },
                },
            }
        }
    }
}

/// Decompressing what the compressor stored gives the data back.
pub proof fn lemma_stored_roundtrip(d: Seq<u8>)
    requires
        d.len() <= MAX_COMPRESS_INPUT,
    ensures
        decompress_spec(stored_frame(d)) == Ok::<Seq<u8>, ExofsError>(d),
{
    let f = stored_frame(d);
    crate::bytes::lemma_le32(COMPRESSED_BLOCK_MAGIC);
    crate::bytes::lemma_le32(d.len() as u32);
    assert(f.subrange(0, 4) =~= crate::bytes::le32(COMPRESSED_BLOCK_MAGIC));
    assert(get32(f, 0) == get32(crate::bytes::le32(COMPRESSED_BLOCK_MAGIC), 0));
    assert(get32(f, 8) == get32(crate::bytes::le32(d.len() as u32), 0));
    assert(get32(f, 12) == get32(crate::bytes::le32(d.len() as u32), 0));
    assert(f[4] == 0);
    assert(f.subrange(16, 16 + d.len() as int) =~= d);
}

/// Reads framed payloads back.
pub struct DecompressReader;

impl DecompressReader {
    /// Decompresses a frame and checks its size against the header.
    pub fn decompress(framed: &[u8]) -> (r: ExofsResult<DecompressResult>)
        ensures
            decompress_spec(framed@) matches Err(e) ==> (r matches Err(e2) && e2 == e),
            decompress_spec(framed@) matches Ok(d) ==> (r matches Ok(res) && res.data@ == d && res.original_size == get32(framed@, 8)
                && frame_algo(framed@) == Some(res.algo)),
    {
        if framed.len() < COMPRESS_HEADER_SIZE {
            return Err(ExofsError::InvalidSize);
        }
        let magic = read_u32(framed, 0);
        if magic != COMPRESSED_BLOCK_MAGIC {
            return Err(ExofsError::BadMagic);
        }
        let head = vstd::slice::slice_subrange(framed, 0, COMPRESS_HEADER_SIZE);
        proof {
            assert(get32(head@, 0) == get32(framed@, 0));
            assert(get32(head@, 8) == get32(framed@, 8));
            assert(get32(head@, 12) == get32(framed@, 12));
        }
        let hdr = CompressedBlockHeader::from_bytes(head)?;
        let payload = vstd::slice::slice_subrange(framed, COMPRESS_HEADER_SIZE, framed.len());
        let expected_payload = hdr.compressed_size as usize;
        if payload.len() < expected_payload {
            return Err(ExofsError::InvalidSize);
        }
        let payload = vstd::slice::slice_subrange(payload, 0, expected_payload);
        proof {
            assert(payload@ =~= framed@.subrange(16, 16 + expected_payload));
        }
        let algo = CompressionType::from_u8(hdr.algo)?;
        let original_size = hdr.original_size as usize;
        let data = Self::decompress_raw(payload, algo, original_size)?;
        if data.len() != original_size {
            return Err(ExofsError::DecompressError);
        }
        let ratio_milli: u32 = if original_size == 0 {
            1000
        } else {
            ((expected_payload as u64 * 1000 / original_size as u64) % 0x1_0000_0000) as u32
        };
        Ok(DecompressResult { data, algo, original_size: hdr.original_size, ratio_milli })
    }

    /// The header of a frame.
    pub fn read_header(framed: &[u8]) -> (r: ExofsResult<CompressedBlockHeader>)
        ensures
            framed@.len() < COMPRESS_HEADER_SIZE ==> r == Err::<CompressedBlockHeader, ExofsError>(ExofsError::InvalidSize),
            framed@.len() >= COMPRESS_HEADER_SIZE && !frame_header_ok(framed@) ==> r == Err::<CompressedBlockHeader, ExofsError>(
                ExofsError::BadMagic),
            frame_header_ok(framed@) ==> (r matches Ok(h) && h.magic == COMPRESSED_BLOCK_MAGIC && h.algo == framed@[4]
                && h.original_size == get32(framed@, 8) && h.compressed_size == get32(framed@, 12)),
    {
        if framed.len() < COMPRESS_HEADER_SIZE {
            return Err(ExofsError::InvalidSize);
        }
        let magic = read_u32(framed, 0);
        if magic != COMPRESSED_BLOCK_MAGIC {
            return Err(ExofsError::BadMagic);
        }
        let head = vstd::slice::slice_subrange(framed, 0, COMPRESS_HEADER_SIZE);
        proof {
            assert(get32(head@, 0) == get32(framed@, 0));
            assert(get32(head@, 8) == get32(framed@, 8));
            assert(get32(head@, 12) == get32(framed@, 12));
        }
        CompressedBlockHeader::from_bytes(head)
    }

    /// Header plus payload size of a frame.
    pub fn framed_size(framed: &[u8]) -> (r: ExofsResult<usize>)
        ensures
            framed@.len() < COMPRESS_HEADER_SIZE ==> r == Err::<usize, ExofsError>(ExofsError::InvalidSize),
            framed@.len() >= COMPRESS_HEADER_SIZE && !frame_header_ok(framed@) ==> r == Err::<usize, ExofsError>(ExofsError::BadMagic),
            frame_header_ok(framed@) && 16 + get32(framed@, 12) <= usize::MAX ==> r == Ok::<usize, ExofsError>(
                (16 + get32(framed@, 12)) as usize),
            frame_header_ok(framed@) && 16 + get32(framed@, 12) > usize::MAX ==> r == Err::<usize, ExofsError>(ExofsError::Overflow),
    {
        let hdr = Self::read_header(framed)?;
        match COMPRESS_HEADER_SIZE.checked_add(hdr.compressed_size as usize) {
            Some(n) => Ok(n),
            None => Err(ExofsError::Overflow),
        }
    }

    /// Original size recorded in a frame.
    pub fn original_size(framed: &[u8]) -> (r: ExofsResult<u32>)
        ensures
            framed@.len() < COMPRESS_HEADER_SIZE ==> r == Err::<u32, ExofsError>(ExofsError::InvalidSize),
            framed@.len() >= COMPRESS_HEADER_SIZE && !frame_header_ok(framed@) ==> r == Err::<u32, ExofsError>(ExofsError::BadMagic),
            frame_header_ok(framed@) ==> r == Ok::<u32, ExofsError>(get32(framed@, 8)),
    {
        let hdr = Self::read_header(framed)?;
        Ok(hdr.original_size)
    }

    /// Algorithm recorded in a frame.
    pub fn algorithm(framed: &[u8]) -> (r: ExofsResult<CompressionType>)
        ensures
            framed@.len() < COMPRESS_HEADER_SIZE ==> r == Err::<CompressionType, ExofsError>(ExofsError::InvalidSize),
            framed@.len() >= COMPRESS_HEADER_SIZE && !frame_header_ok(framed@) ==> r == Err::<CompressionType, ExofsError>(
                ExofsError::BadMagic),
            frame_header_ok(framed@) ==> match frame_algo(framed@) {
                Some(a) => r == Ok::<CompressionType, ExofsError>(a),
                None => r == Err::<CompressionType, ExofsError>(ExofsError::InvalidArgument),
            },
    {
        let hdr = Self::read_header(framed)?;
        CompressionType::from_u8(hdr.algo)
    }

    /// Decodes a payload with `algo`.
    pub fn decompress_raw(payload: &[u8], algo: CompressionType, expected_size: usize) -> (r: ExofsResult<Vec<u8>>)
        ensures
            decode_spec(payload@, algo, expected_size as nat) matches Err(e) ==> (r matches Err(e2) && e2 == e),
            decode_spec(payload@, algo, expected_size as nat) matches Ok(d) ==> (r matches Ok(v) && v@ == d),
    {
        match algo {
            CompressionType::Uncompressed => {
                let mut v: Vec<u8> = Vec::new();
                push_bytes(&mut v, payload);
                Ok(v)
            },
            CompressionType::Lz4 => lz4_decompress(payload, expected_size),
            CompressionType::Zstd => zstd_decompress(payload, expected_size),
        }
    }
}

fn read_ext(input: &[u8], start: usize, acc0: usize) -> (r: ExofsResult<(usize, usize)>)
    ensures
        ext_len(input@, start as int, acc0 as int) matches Err(e) ==> r == Err::<(usize, usize), ExofsError>(e),
        ext_len(input@, start as int, acc0 as int) matches Ok(p) ==> r == Ok::<(usize, usize), ExofsError>((p.0 as usize, p.1 as usize)),
{
    let mut ip = start;
    let mut acc = acc0;
    while ip < input.len()
        invariant
            ext_len(input@, ip as int, acc as int) == ext_len(input@, start as int, acc0 as int),
        decreases input@.len() - ip,
    {
        let extra = input[ip] as usize;
        let a = match acc.checked_add(extra) {
            Some(a) => a,
            None => return Err(ExofsError::Overflow),
        };
        if extra != 255 {
            return Ok((ip + 1, a));
        }
        ip = ip + 1;
        acc = a;
    }
    Err(ExofsError::DecompressError)
}

fn lz4_decompress(input: &[u8], expected_size: usize) -> (r: ExofsResult<Vec<u8>>)
    ensures
        lz4_from(input@, 0, Seq::empty()) matches Err(e) ==> (r matches Err(e2) && e2 == e),
        lz4_from(input@, 0, Seq::empty()) matches Ok(d) ==> (r matches Ok(v) && v@ == d),
{
    let mut out: Vec<u8> = Vec::new();
    let lim = input.len().saturating_sub(4);
    let mut ip: usize = 0;
    while ip < lim
        invariant
            lim == sub0(input@.len() as int, 4),
            lim <= input@.len(),
            ip <= input@.len(),
            lz4_from(input@, ip as int, out@) == lz4_from(input@, 0, Seq::empty()),
        decreases input@.len() - ip,
    {
        let ghost out0 = out@;
        let ghost ip0 = ip as int;
        let token = input[ip];
        ip += 1;
        let mut llen: usize = (token >> 4u8) as usize;
        if llen == 15 {
            let (p, l) = read_ext(input, ip, 15)?;
            proof {
                lemma_ext_ahead(input@, ip as int, 15);
            }
            ip = p;
            llen = l;
        }
        let end = match ip.checked_add(llen) {
            Some(e) => e,
            None => return Err(ExofsError::Overflow),
        };
        if end > lim {
            let available = lim.saturating_sub(ip);
            let l = if llen < available { llen } else { available };
            let chunk = vstd::slice::slice_subrange(input, ip, ip + l);
            push_bytes(&mut out, chunk);
            return Ok(out);
        }
        let chunk = vstd::slice::slice_subrange(input, ip, end);
        push_bytes(&mut out, chunk);
        ip = end;
        if ip >= lim {
            return Ok(out);
        }
        if ip + 2 > input.len() {
            return Err(ExofsError::DecompressError);
        }
        let off = read_u16(input, ip) as usize;
        ip += 2;
        let mut mlen: usize = (token & 15u8) as usize + 4;
        if (token & 15u8) == 15 {
            let (p, m) = read_ext(input, ip, mlen)?;
            proof {
                lemma_ext_ahead(input@, ip as int, mlen as int);
            }
            ip = p;
            mlen = m;
        }
        if off > out.len() || off == 0 {
            // A zero distance would copy from past the end.
            return Err(ExofsError::DecompressError);
        }
        let match_start = out.len() - off;
        let ghost out1 = out@;
        let mut i: usize = 0;
        while i < mlen
            invariant
                0 <= i <= mlen,
                match_start == out1.len() - off,
                0 < off <= out1.len(),
                out@ == out1 + match_copy(out1, off as int, i as int),
            decreases mlen - i,
        {
            let cur = out.len();
            let src_idx = match_start + i;
            let byte = out[src_idx];
            proof {
                let k = i as int;
                let o = off as int;
                if src_idx < out1.len() {
                    assert(k < o);
                    assert(k % o == k) by (nonlinear_arith) requires 0 <= k < o;
                } else {
                    assert(k >= o);
                    assert((k - o) % o == k % o) by (nonlinear_arith) requires k >= o, o > 0;
                }
            }
            out.push(byte);
            proof {
                assert(out@ =~= out1 + match_copy(out1, off as int, i + 1));
            }
            i += 1;
        }
    }
    Ok(out)
}

fn zstd_decompress(input: &[u8], expected_size: usize) -> (r: ExofsResult<Vec<u8>>)
    ensures
        zstd_dec_spec(input@, expected_size as nat) matches Err(e) ==> (r matches Err(e2) && e2 == e),
        zstd_dec_spec(input@, expected_size as nat) matches Ok(d) ==> (r matches Ok(v) && v@ == d),
{
    if input.len() < 6 {
        return Err(ExofsError::InvalidSize);
    }
    if !(input[0] == 0x28 && input[1] == 0xb5 && input[2] == 0x2f && input[3] == 0xfd) {
        return Err(ExofsError::BadMagic);
    }
    let fhd = input[4];
    let fcs_id = (fhd >> 6u8) & 3u8;
    let fcs_offset: usize = if fcs_id == 0 { 1 } else if fcs_id == 1 { 2 } else if fcs_id == 2 { 4 } else { 8 };
    let pos: usize = 5 + fcs_offset;
    if pos + 4 > input.len() {
        return Err(ExofsError::InvalidSize);
    }
    let b0 = input[pos];
    let b1 = input[pos + 1];
    let b2 = input[pos + 2];
    let bh_raw: u32 = (b0 as u32) | ((b1 as u32) << 8u32) | ((b2 as u32) << 16u32);
    let pos = pos + 3;
    let block_type = (bh_raw >> 1u32) & 3u32;
    let block_size = (bh_raw >> 3u32) as usize;
    proof {
        assert(bh_raw >> 3u32 < 0x20_0000) by (bit_vector)
            requires bh_raw == (b0 as u32) | ((b1 as u32) << 8u32) | ((b2 as u32) << 16u32);
    }
    let end = pos + block_size;
    if end > input.len() {
        return Err(ExofsError::InvalidSize);
    }
    let block_data = vstd::slice::slice_subrange(input, pos, end);
    if block_type == 1 {
        let mut out: Vec<u8> = Vec::new();
        push_bytes(&mut out, block_data);
        Ok(out)
    } else if block_type == 2 {
        if block_data.len() == 0 {
            return Err(ExofsError::DecompressError);
        }
        let byte = block_data[0];
        let mut out: Vec<u8> = Vec::new();
        let mut i: usize = 0;
        while i < expected_size
            invariant
                0 <= i <= expected_size,
                out@ == repeat(byte, i as nat),
            decreases expected_size - i,
        {
            out.push(byte);
            proof {
                assert(out@ =~= repeat(byte, (i + 1) as nat));
            }
            i += 1;
        }
        Ok(out)
    } else {
        Err(ExofsError::DecompressError)
    }
}

/// Outcome of one frame of a batch.
pub struct BatchDecompressItem {
    pub index: usize,
    pub success: bool,
    pub data: Vec<u8>,
    pub algo: CompressionType,
}

/// Outcomes of a batch.
pub struct BatchDecompressReport {
    pub items: Vec<BatchDecompressItem>,
    pub ok_count: usize,
    pub fail_count: usize,
}

impl BatchDecompressReport {
    /// True iff no frame failed.
    pub fn all_ok(&self) -> (r: bool)
        ensures
            r == (self.fail_count == 0),
    {
        self.fail_count == 0
    }
}

/// Number of frames among the first `k` that decompress.
pub open spec fn ok_frames(fs: Seq<&[u8]>, k: int) -> nat
    decreases k,
{
    if k <= 0 { 0 } else { ok_frames(fs, k - 1) + (if decompress_spec(fs[k - 1]@) is Ok { 1nat } else { 0nat }) }
}

/// Decompresses every frame, recording each outcome in order.
pub fn decompress_batch(frames: &[&[u8]]) -> (r: ExofsResult<BatchDecompressReport>)
    ensures
        r matches Ok(rep) && rep.items@.len() == frames@.len() && rep.ok_count == ok_frames(frames@, frames@.len() as int)
            && rep.ok_count + rep.fail_count == frames@.len()
            && forall|i: int| 0 <= i < frames@.len() ==> {
                let it = #[trigger] rep.items@[i];
                &&& it.index == i
                &&& it.success == (decompress_spec(frames@[i]@) is Ok)
                &&& (decompress_spec(frames@[i]@) matches Ok(d) ==> it.data@ == d)
                &&& (decompress_spec(frames@[i]@) is Err ==> it.data@.len() == 0)
            },
{
    let mut items: Vec<BatchDecompressItem> = Vec::new();
    let mut ok_count: usize = 0;
    let mut fail_count: usize = 0;
    let mut i: usize = 0;
    while i < frames.len()
        invariant
            0 <= i <= frames@.len(),
            items@.len() == i,
            ok_count == ok_frames(frames@, i as int),
            ok_count + fail_count == i,
            forall|k: int| 0 <= k < i ==> {
                let it = #[trigger] items@[k];
                &&& it.index == k
                &&& it.success == (decompress_spec(frames@[k]@) is Ok)
                &&& (decompress_spec(frames@[k]@) matches Ok(d) ==> it.data@ == d)
                &&& (decompress_spec(frames@[k]@) is Err ==> it.data@.len() == 0)
            },
        decreases frames.len() - i,
    {
        let frame = frames[i];
        assert(frame@ == frames@[i as int]@);
        let ghost before = items@;
        match DecompressReader::decompress(frame) {
            Ok(r) => {
                ok_count += 1;
                items.push(BatchDecompressItem { index: i, success: true, data: r.data, algo: r.algo });
            },
            Err(_) => {
                fail_count += 1;
                items.push(BatchDecompressItem { index: i, success: false, data: Vec::new(), algo: CompressionType::Uncompressed });
            },
        }
        proof {
            assert forall|k: int| 0 <= k < i + 1 implies {
                let it = #[trigger] items@[k];
                &&& it.index == k
                &&& it.success == (decompress_spec(frames@[k]@) is Ok)
                &&& (decompress_spec(frames@[k]@) matches Ok(d) ==> it.data@ == d)
                &&& (decompress_spec(frames@[k]@) is Err ==> it.data@.len() == 0)
            } by {
                if k < i {
                    assert(items@[k] == before[k]);
                }
            }
        }
        i += 1;
    }
    Ok(BatchDecompressReport { items, ok_count, fail_count })
}

/// Counters of decompressions.
pub struct DecompressStats {
    pub ops: u64,
    pub bytes_out: u64,
    pub errors: u64,
}

impl DecompressStats {
    /// All counters zero.
    pub fn new() -> (r: DecompressStats)
        ensures
            r.ops == 0 && r.bytes_out == 0 && r.errors == 0,
    {
        DecompressStats { ops: 0, bytes_out: 0, errors: 0 }
    }

    /// Counts a success producing `bytes` bytes.
    pub fn record_ok(&mut self, bytes: u64)
        ensures
            final(self).ops == crate::storage::compression_choice::wadd(old(self).ops, 1),
            final(self).bytes_out == crate::storage::compression_choice::wadd(old(self).bytes_out, bytes),
            final(self).errors == old(self).errors,
    {
        self.ops = self.ops.wrapping_add(1);
        self.bytes_out = self.bytes_out.wrapping_add(bytes);
    }

    /// Counts a failure.
    pub fn record_err(&mut self)
        ensures
            final(self).errors == crate::storage::compression_choice::wadd(old(self).errors, 1),
            final(self).ops == old(self).ops,
            final(self).bytes_out == old(self).bytes_out,
    {
        self.errors = self.errors.wrapping_add(1);
    }
}

/// True iff the frame has a valid header.
pub fn validate_frame_header(framed: &[u8]) -> (r: bool)
    ensures
        r == frame_header_ok(framed@),
{
    DecompressReader::read_header(framed).is_ok()
}

/// Bytes needed to hold the decompressed content.
pub fn required_output_capacity(framed: &[u8]) -> (r: ExofsResult<usize>)
    ensures
        framed@.len() < COMPRESS_HEADER_SIZE ==> r == Err::<usize, ExofsError>(ExofsError::InvalidSize),
        framed@.len() >= COMPRESS_HEADER_SIZE && !frame_header_ok(framed@) ==> r == Err::<usize, ExofsError>(ExofsError::BadMagic),
        frame_header_ok(framed@) ==> r == Ok::<usize, ExofsError>(get32(framed@, 8) as usize),
{
    let sz = DecompressReader::original_size(framed)? as usize;
    Ok(sz)
}

/// Decompresses a frame and counts the outcome in `stats`.
pub fn decompress_with_stats(stats: &mut DecompressStats, framed: &[u8]) -> (r: ExofsResult<Vec<u8>>)
    ensures
        decompress_spec(framed@) matches Err(e) ==> (r matches Err(e2) && e2 == e)
            && final(stats).errors == crate::storage::compression_choice::wadd(old(stats).errors, 1)
            && final(stats).ops == old(stats).ops && final(stats).bytes_out == old(stats).bytes_out,
        decompress_spec(framed@) matches Ok(d) ==> (r matches Ok(v) && v@ == d)
            && final(stats).ops == crate::storage::compression_choice::wadd(old(stats).ops, 1)
            && final(stats).bytes_out == crate::storage::compression_choice::wadd(old(stats).bytes_out, d.len() as u64)
            && final(stats).errors == old(stats).errors,
{
    match DecompressReader::decompress(framed) {
        Ok(r) => {
            stats.record_ok(r.data.len() as u64);
            Ok(r.data)
        },
        Err(e) => {
            stats.record_err();
            Err(e)
        },
    }
}

} // verus!
