//! Little-endian encoding of integers.
use vstd::prelude::*;

verus! {

/// The two little-endian bytes of `x`.
pub open spec fn le16(x: u16) -> Seq<u8> {
    seq![(x & 0xff) as u8, (x >> 8) as u8]
}

/// The four little-endian bytes of `x`.
pub open spec fn le32(x: u32) -> Seq<u8> {
    seq![(x & 0xff) as u8, ((x >> 8) & 0xff) as u8, ((x >> 16) & 0xff) as u8, (x >> 24) as u8]
}

/// The eight little-endian bytes of `x`.
pub open spec fn le64(x: u64) -> Seq<u8> {
    seq![
        (x & 0xff) as u8, ((x >> 8) & 0xff) as u8, ((x >> 16) & 0xff) as u8, ((x >> 24) & 0xff) as u8,
        ((x >> 32) & 0xff) as u8, ((x >> 40) & 0xff) as u8, ((x >> 48) & 0xff) as u8, (x >> 56) as u8,
    ]
}

/// The `u16` whose little-endian bytes start at `b[i]`.
pub open spec fn get16(b: Seq<u8>, i: int) -> u16 {
    (b[i] as u16) | ((b[i + 1] as u16) << 8)
}

/// The `u32` whose little-endian bytes start at `b[i]`.
pub open spec fn get32(b: Seq<u8>, i: int) -> u32 {
    (b[i] as u32) | ((b[i + 1] as u32) << 8) | ((b[i + 2] as u32) << 16) | ((b[i + 3] as u32) << 24)
}

/// The `u64` whose little-endian bytes start at `b[i]`.
pub open spec fn get64(b: Seq<u8>, i: int) -> u64 {
    (b[i] as u64) | ((b[i + 1] as u64) << 8) | ((b[i + 2] as u64) << 16) | ((b[i + 3] as u64) << 24)
        | ((b[i + 4] as u64) << 32) | ((b[i + 5] as u64) << 40) | ((b[i + 6] as u64) << 48) | ((b[i + 7] as u64) << 56)
}

/// Decoding the encoding of a `u32` gives it back.
pub proof fn lemma_le32(x: u32)
    ensures
        get32(le32(x), 0) == x,
{
    assert(((x & 0xff) as u8 as u32) | ((((x >> 8) & 0xff) as u8 as u32) << 8) | ((((x >> 16) & 0xff) as u8 as u32) << 16)
        | (((x >> 24) as u8 as u32) << 24) == x) by (bit_vector);
}

/// Decoding the encoding of a `u64` gives it back.
pub proof fn lemma_le64(x: u64)
    ensures
        get64(le64(x), 0) == x,
{
    assert(((x & 0xff) as u8 as u64) | ((((x >> 8) & 0xff) as u8 as u64) << 8) | ((((x >> 16) & 0xff) as u8 as u64) << 16)
        | ((((x >> 24) & 0xff) as u8 as u64) << 24) | ((((x >> 32) & 0xff) as u8 as u64) << 32)
        | ((((x >> 40) & 0xff) as u8 as u64) << 40) | ((((x >> 48) & 0xff) as u8 as u64) << 48)
        | (((x >> 56) as u8 as u64) << 56) == x) by (bit_vector);
}

/// Four bytes that encode `x` in place read back as `x`.
pub proof fn lemma_get32_at(s: Seq<u8>, i: int, x: u32)
    requires
        0 <= i,
        i + 4 <= s.len(),
        s.subrange(i, i + 4) == le32(x),
    ensures
        get32(s, i) == x,
{
    lemma_le32(x);
    assert(s[i] == s.subrange(i, i + 4)[0] && s[i + 1] == s.subrange(i, i + 4)[1]);
    assert(s[i + 2] == s.subrange(i, i + 4)[2] && s[i + 3] == s.subrange(i, i + 4)[3]);
}

/// Eight bytes that encode `x` in place read back as `x`.
pub proof fn lemma_get64_at(s: Seq<u8>, i: int, x: u64)
    requires
        0 <= i,
        i + 8 <= s.len(),
        s.subrange(i, i + 8) == le64(x),
    ensures
        get64(s, i) == x,
{
    lemma_le64(x);
    let t = s.subrange(i, i + 8);
    assert(s[i] == t[0] && s[i + 1] == t[1] && s[i + 2] == t[2] && s[i + 3] == t[3]);
    assert(s[i + 4] == t[4] && s[i + 5] == t[5] && s[i + 6] == t[6] && s[i + 7] == t[7]);
}

/// Appends the little-endian bytes of `x`.
pub fn push_u16(out: &mut Vec<u8>, x: u16)
    ensures
        final(out)@ == old(out)@ + le16(x),
{
    out.push((x & 0xff) as u8);
    out.push((x >> 8) as u8);
    proof {
        assert(final(out)@ =~= old(out)@ + le16(x));
    }
}

/// Appends the little-endian bytes of `x`.
pub fn push_u32(out: &mut Vec<u8>, x: u32)
    ensures
        final(out)@ == old(out)@ + le32(x),
{
    out.push((x & 0xff) as u8);
    out.push(((x >> 8) & 0xff) as u8);
    out.push(((x >> 16) & 0xff) as u8);
    out.push((x >> 24) as u8);
    proof {
        assert(final(out)@ =~= old(out)@ + le32(x));
    }
}

/// Appends the little-endian bytes of `x`.
pub fn push_u64(out: &mut Vec<u8>, x: u64)
    ensures
        final(out)@ == old(out)@ + le64(x),
{
    out.push((x & 0xff) as u8);
    out.push(((x >> 8) & 0xff) as u8);
    out.push(((x >> 16) & 0xff) as u8);
    out.push(((x >> 24) & 0xff) as u8);
    out.push(((x >> 32) & 0xff) as u8);
    out.push(((x >> 40) & 0xff) as u8);
    out.push(((x >> 48) & 0xff) as u8);
    out.push((x >> 56) as u8);
    proof {
        assert(final(out)@ =~= old(out)@ + le64(x));
    }
}

/// Appends the bytes of `src`.
pub fn push_bytes(out: &mut Vec<u8>, src: &[u8])
    ensures
        final(out)@ == old(out)@ + src@,
{
    let mut i: usize = 0;
    while i < src.len()
        invariant
            0 <= i <= src@.len(),
            out@ == old(out)@ + src@.subrange(0, i as int),
        decreases src.len() - i,
    {
        out.push(src[i]);
        proof {
            assert(old(out)@ + src@.subrange(0, i + 1) =~= (old(out)@ + src@.subrange(0, i as int)).push(src@[i as int]));
        }
        i += 1;
    }
    proof {
        assert(src@.subrange(0, src@.len() as int) =~= src@);
    }
}

/// The `u16` stored little-endian at `b[i..i + 2]`.
pub fn read_u16(b: &[u8], i: usize) -> (r: u16)
    requires
        i + 2 <= b@.len(),
    ensures
        r == get16(b@, i as int),
{
    (b[i] as u16) | ((b[i + 1] as u16) << 8)
}

/// The `u32` stored little-endian at `b[i..i + 4]`.
pub fn read_u32(b: &[u8], i: usize) -> (r: u32)
    requires
        i + 4 <= b@.len(),
    ensures
        r == get32(b@, i as int),
{
    (b[i] as u32) | ((b[i + 1] as u32) << 8) | ((b[i + 2] as u32) << 16) | ((b[i + 3] as u32) << 24)
}

/// The `u64` stored little-endian at `b[i..i + 8]`.
pub fn read_u64(b: &[u8], i: usize) -> (r: u64)
    requires
        i + 8 <= b@.len(),
    ensures
        r == get64(b@, i as int),
{
    (b[i] as u64) | ((b[i + 1] as u64) << 8) | ((b[i + 2] as u64) << 16) | ((b[i + 3] as u64) << 24)
        | ((b[i + 4] as u64) << 32) | ((b[i + 5] as u64) << 40) | ((b[i + 6] as u64) << 48) | ((b[i + 7] as u64) << 56)
}

/// `b[i..i + n]` as a new vector.
pub fn copy_range(b: &[u8], i: usize, n: usize) -> (r: Vec<u8>)
    requires
        i + n <= b@.len(),
    ensures
        r@ == b@.subrange(i as int, i + n),
{
    let mut out: Vec<u8> = Vec::new();
    let mut k: usize = 0;
    while k < n
        invariant
            0 <= k <= n,
            i + n <= b.len(),
            b.len() == b@.len(),
            out@ == b@.subrange(i as int, i + k),
        decreases n - k,
    {
        out.push(b[i + k]);
        proof {
            assert(b@.subrange(i as int, i + k + 1) =~= b@.subrange(i as int, i + k).push(b@[i + k]));
        }
        k += 1;
    }
    out
}

/// A vector of `n` zero bytes.
pub fn zeroed(n: usize) -> (r: Vec<u8>)
    ensures
        r@ == Seq::new(n as nat, |i: int| 0u8),
{
    let mut out: Vec<u8> = Vec::new();
    let mut k: usize = 0;
    while k < n
        invariant
            0 <= k <= n,
            out@ == Seq::new(k as nat, |i: int| 0u8),
        decreases n - k,
    {
        out.push(0u8);
        proof {
            assert(out@ =~= Seq::new((k + 1) as nat, |i: int| 0u8));
        }
        k += 1;
    }
    out
}

} // verus!
