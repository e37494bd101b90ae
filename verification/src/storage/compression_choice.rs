//! Choice of a compression algorithm from the data and a content hint.
use vstd::prelude::*;
use crate::types::{ExofsError, ExofsResult};

verus! {

/// Compression algorithm; stored on disk as 0, 1 or 2.
#[derive(Clone, Copy, Debug, PartialEq, Eq, Structural)]
pub enum CompressionType {
    Uncompressed,
    Lz4,
    Zstd,
}

/// The on-disk code of an algorithm.
pub open spec fn type_code(t: CompressionType) -> u8 {
    match t {
        CompressionType::Uncompressed => 0,
        CompressionType::Lz4 => 1,
        CompressionType::Zstd => 2,
    }
}

/// Each algorithm has its own code, at most 2: reading back the code of an
/// algorithm gives that algorithm.
pub proof fn lemma_type_code_roundtrip(a: CompressionType, b: CompressionType)
    ensures
        type_code(a) <= 2,
        type_code(a) == type_code(b) ==> a == b,
{
}

impl CompressionType {
    /// The algorithm of code `v`.
    pub fn from_u8(v: u8) -> (r: ExofsResult<CompressionType>)
        ensures
            v > 2 ==> r == Err::<CompressionType, ExofsError>(ExofsError::InvalidArgument),
            v <= 2 ==> (r matches Ok(t) && type_code(t) == v),
    {
        match v {
            0 => Ok(CompressionType::Uncompressed),
            1 => Ok(CompressionType::Lz4),
            2 => Ok(CompressionType::Zstd),
            _ => Err(ExofsError::InvalidArgument),
        }
    }

    /// The code of the algorithm.
    pub fn to_u8(self) -> (r: u8)
        ensures
            r == type_code(self),
    {
        match self {
            CompressionType::Uncompressed => 0,
            CompressionType::Lz4 => 1,
            CompressionType::Zstd => 2,
        }
    }

    /// Name of the algorithm.
    pub fn name(self) -> (r: &'static str)
        ensures
            self == CompressionType::Uncompressed ==> r@ == "none"@,
            self == CompressionType::Lz4 ==> r@ == "lz4"@,
            self == CompressionType::Zstd ==> r@ == "zstd"@,
    {
        match self {
            CompressionType::Uncompressed => "none",
            CompressionType::Lz4 => "lz4",
            CompressionType::Zstd => "zstd",
        }
    }

    /// True for every algorithm but `None`.
    pub fn is_compressed(self) -> (r: bool)
        ensures
            r == (self != CompressionType::Uncompressed),
    {
        !matches!(self, CompressionType::Uncompressed)
    }
}

/// What the caller knows of the content.
#[derive(Clone, Copy, Debug, PartialEq, Eq, Structural)]
pub enum ContentHint {
    Unknown,
    Text,
    StructuredData,
    Binary,
    Media,
    Metadata,
    AlreadyCompressed,
}

/// An algorithm with the reason of the choice.
#[derive(Clone, Copy, Debug)]
pub struct CompressionDecision {
    pub algorithm: CompressionType,
    pub reason: &'static str,
    pub hint_used: ContentHint,
    pub data_size: u64,
}

impl CompressionDecision {
    /// No compression.
    pub fn none(reason: &'static str, hint: ContentHint, size: u64) -> (r: CompressionDecision)
        ensures
            r == (CompressionDecision { algorithm: CompressionType::Uncompressed, reason, hint_used: hint, data_size: size }),
    {
        CompressionDecision { algorithm: CompressionType::Uncompressed, reason, hint_used: hint, data_size: size }
    }

    /// LZ4.
    pub fn lz4(reason: &'static str, hint: ContentHint, size: u64) -> (r: CompressionDecision)
        ensures
            r == (CompressionDecision { algorithm: CompressionType::Lz4, reason, hint_used: hint, data_size: size }),
    {
        CompressionDecision { algorithm: CompressionType::Lz4, reason, hint_used: hint, data_size: size }
    }

    /// Zstd.
    pub fn zstd(reason: &'static str, hint: ContentHint, size: u64) -> (r: CompressionDecision)
        ensures
            r == (CompressionDecision { algorithm: CompressionType::Zstd, reason, hint_used: hint, data_size: size }),
    {
        CompressionDecision { algorithm: CompressionType::Zstd, reason, hint_used: hint, data_size: size }
    }
}

/// Below this size data is not compressed.
pub const MIN_COMPRESSIBLE_BYTES: u64 = 512;

/// From this size text goes to zstd rather than LZ4.
pub const ZSTD_MIN_BYTES: u64 = 2048;

/// Above this sampled entropy (per mille) binary data is not compressed.
pub const MAX_ENTROPY_PERMILLE: u32 = 980;

/// The first `min(len, n)` bytes.
pub open spec fn prefix(d: Seq<u8>, n: int) -> Seq<u8> {
    d.subrange(0, if d.len() < n { d.len() as int } else { n })
}

/// Number of byte values below `k` that occur in `s`.
pub open spec fn distinct_upto(s: Seq<u8>, k: int) -> nat
    decreases k,
{
    if k <= 0 { 0 } else { distinct_upto(s, k - 1) + (if s.contains((k - 1) as u8) { 1nat } else { 0nat }) }
}

/// Sampled entropy: distinct byte values among the first 256 bytes, per 256, times 1000.
pub open spec fn entropy_spec(d: Seq<u8>) -> u32 {
    (distinct_upto(prefix(d, 256), 256) * 1000 / 256) as u32
}

/// The algorithm chosen for data of `size` bytes with `hint` and sampled entropy `e`.
pub open spec fn choice_spec(size: u64, hint: ContentHint, e: u32) -> CompressionType {
    if size < MIN_COMPRESSIBLE_BYTES {
        CompressionType::Uncompressed
    } else {
        match hint {
            ContentHint::Media | ContentHint::AlreadyCompressed => CompressionType::Uncompressed,
            ContentHint::Text | ContentHint::Metadata => if size < ZSTD_MIN_BYTES { CompressionType::Lz4 } else { CompressionType::Zstd },
            ContentHint::StructuredData => CompressionType::Zstd,
            ContentHint::Binary | ContentHint::Unknown => if e > MAX_ENTROPY_PERMILLE { CompressionType::Uncompressed } else { CompressionType::Lz4 },
        }
    }
}

/// Chooses the algorithm for `data` given `hint`.
pub fn choose_compression(data: &[u8], hint: ContentHint) -> (r: CompressionDecision)
    ensures
        r.algorithm == choice_spec(data@.len() as u64, hint, entropy_spec(data@)),
        r.hint_used == hint,
        r.data_size == data@.len(),
{
    let size = data.len() as u64;
    if size < MIN_COMPRESSIBLE_BYTES {
        return CompressionDecision::none("too_small", hint, size);
    }
    match hint {
        ContentHint::Media | ContentHint::AlreadyCompressed => CompressionDecision::none("already_compressed", hint, size),
        ContentHint::Text | ContentHint::Metadata => {
            if size < ZSTD_MIN_BYTES {
                CompressionDecision::lz4("text_small", hint, size)
            } else {
                CompressionDecision::zstd("text_large", hint, size)
            }
        },
        ContentHint::StructuredData => CompressionDecision::zstd("structured_data", hint, size),
        ContentHint::Binary | ContentHint::Unknown => {
            let entropy = sample_entropy(data);
            if entropy > MAX_ENTROPY_PERMILLE {
                CompressionDecision::none("high_entropy", hint, size)
            } else {
                CompressionDecision::lz4("binary_compressible", hint, size)
            }
        },
    }
}

/// The algorithm chosen from the hint and size alone.
pub open spec fn hint_choice_spec(hint: ContentHint, size: u64) -> CompressionType {
    if size < MIN_COMPRESSIBLE_BYTES {
        CompressionType::Uncompressed
    } else {
        match hint {
            ContentHint::Media | ContentHint::AlreadyCompressed => CompressionType::Uncompressed,
            ContentHint::Text | ContentHint::StructuredData => CompressionType::Zstd,
            ContentHint::Metadata | ContentHint::Binary | ContentHint::Unknown => CompressionType::Lz4,
        }
    }
}

/// Chooses the algorithm from the hint and size alone.
pub fn choose_compression_hint_only(hint: ContentHint, size: u64) -> (r: CompressionDecision)
    ensures
        r.algorithm == hint_choice_spec(hint, size),
        r.hint_used == hint,
        r.data_size == size,
{
    if size < MIN_COMPRESSIBLE_BYTES {
        return CompressionDecision::none("too_small", hint, size);
    }
    match hint {
        ContentHint::Media | ContentHint::AlreadyCompressed => CompressionDecision::none("already_compressed_hint", hint, size),
        ContentHint::Text => CompressionDecision::zstd("text_hint", hint, size),
        ContentHint::StructuredData => CompressionDecision::zstd("structured_hint", hint, size),
        ContentHint::Metadata | ContentHint::Binary | ContentHint::Unknown => CompressionDecision::lz4("binary_hint", hint, size),
    }
}

/// Marks the byte values present in `s`.
fn seen_values(s: &[u8]) -> (r: Vec<bool>)
    ensures
        r@.len() == 256,
        forall|v: int| 0 <= v < 256 ==> #[trigger] r@[v] == s@.contains(v as u8),
{
    let mut seen: Vec<bool> = Vec::new();
    let mut k: usize = 0;
    while k < 256
        invariant
            0 <= k <= 256,
            seen@.len() == k,
            forall|v: int| 0 <= v < k ==> !#[trigger] seen@[v],
        decreases 256 - k,
    {
        seen.push(false);
        k += 1;
    }
    let mut i: usize = 0;
    while i < s.len()
        invariant
            0 <= i <= s@.len(),
            seen@.len() == 256,
            forall|v: int| 0 <= v < 256 ==> #[trigger] seen@[v] == s@.subrange(0, i as int).contains(v as u8),
        decreases s.len() - i,
    {
        let b = s[i];
        seen.set(b as usize, true);
        proof {
            assert forall|v: int| 0 <= v < 256 implies #[trigger] seen@[v] == s@.subrange(0, i + 1).contains(v as u8) by {
                let old_s = s@.subrange(0, i as int);
                let new_s = s@.subrange(0, i + 1);
                assert(new_s == old_s.push(b));
                if new_s.contains(v as u8) {
                    let j = choose|j: int| 0 <= j < new_s.len() && new_s[j] == v as u8;
                    if j < i {
                        assert(old_s[j] == v as u8);
                    }
                }
                if old_s.contains(v as u8) {
                    let j = choose|j: int| 0 <= j < old_s.len() && old_s[j] == v as u8;
                    assert(new_s[j] == v as u8);
                }
                if v == b as int {
                    assert(new_s[i as int] == b);
                }
            }
        }
        i += 1;
    }
    proof {
        assert(s@.subrange(0, s@.len() as int) == s@);
    }
    seen
}

/// Sampled entropy (per mille) of the first 256 bytes: the share of the 256
/// byte values that occur there.
pub fn sample_entropy(data: &[u8]) -> (r: u32)
    ensures
        r == entropy_spec(data@),
{
    let sample_len = if data.len() < 256 { data.len() } else { 256 };
    let sample = vstd::slice::slice_subrange(data, 0, sample_len);
    let seen = seen_values(sample);
    let mut distinct: u32 = 0;
    let mut v: usize = 0;
    while v < 256
        invariant
            0 <= v <= 256,
            seen@.len() == 256,
            forall|w: int| 0 <= w < 256 ==> #[trigger] seen@[w] == sample@.contains(w as u8),
            distinct == distinct_upto(sample@, v as int),
            distinct <= v,
        decreases 256 - v,
    {
        if seen[v] {
            distinct += 1;
        }
        v += 1;
    }
    proof {
        assert(sample@ == prefix(data@, 256));
    }
    (distinct * 1000) / 256
}

/// Occurrences of `v` in `s`.
pub open spec fn occurrences(s: Seq<u8>, v: u8) -> nat
    decreases s.len(),
{
    if s.len() == 0 { 0 } else { occurrences(s.drop_last(), v) + (if s.last() == v { 1nat } else { 0nat }) }
}

/// Largest number of occurrences of a byte value below `k` (at least 1).
pub open spec fn max_occ_upto(s: Seq<u8>, k: int) -> nat
    decreases k,
{
    if k <= 0 {
        1
    } else {
        let p = max_occ_upto(s, k - 1);
        let c = occurrences(s, (k - 1) as u8);
        if c > p { c } else { p }
    }
}

/// Number of byte values below `k` that occur in `s` (counted from occurrences).
pub open spec fn nonzero_upto(s: Seq<u8>, k: int) -> nat
    decreases k,
{
    if k <= 0 { 0 } else { nonzero_upto(s, k - 1) + (if occurrences(s, (k - 1) as u8) > 0 { 1nat } else { 0nat }) }
}

/// The finer entropy estimate on the first 512 bytes.
pub open spec fn entropy_full_spec(d: Seq<u8>) -> u32 {
    let s = prefix(d, 512);
    let frac = nonzero_upto(s, 256) * 1000 / 256;
    let uni = s.len() * 1000 / (max_occ_upto(s, 256) * 256);
    if frac + uni / 4 > 1000 { 1000 } else { (frac + uni / 4) as u32 }
}

proof fn lemma_occ_bound(s: Seq<u8>, v: u8)
    ensures
        occurrences(s, v) <= s.len(),
    decreases s.len(),
{
    if s.len() > 0 {
        lemma_occ_bound(s.drop_last(), v);
    }
}

/// Entropy estimate from a histogram of the first 512 bytes: the share of
/// byte values present plus a quarter of how uniform the counts are, at most 1000.
pub fn sample_entropy_full(data: &[u8]) -> (r: u32)
    ensures
        r == entropy_full_spec(data@),
{
    let sample_len = if data.len() < 512 { data.len() } else { 512 };
    let sample = vstd::slice::slice_subrange(data, 0, sample_len);
    let ghost s = sample@;
    let mut hist: Vec<u32> = Vec::new();
    let mut k: usize = 0;
    while k < 256
        invariant
            0 <= k <= 256,
            hist@.len() == k,
            forall|v: int| 0 <= v < k ==> #[trigger] hist@[v] == 0,
        decreases 256 - k,
    {
        hist.push(0);
        k += 1;
    }
    let mut i: usize = 0;
    while i < sample_len
        invariant
            0 <= i <= sample_len,
            sample_len == s.len(),
            sample_len <= 512,
            s == sample@,
            hist@.len() == 256,
            forall|v: int| 0 <= v < 256 ==> #[trigger] hist@[v] == occurrences(s.subrange(0, i as int), v as u8),
            forall|v: int| 0 <= v < 256 ==> #[trigger] hist@[v] <= i,
        decreases sample_len - i,
    {
        let b = sample[i];
        let c = hist[b as usize];
        hist.set(b as usize, c + 1);
        proof {
            assert(s.subrange(0, i + 1).drop_last() == s.subrange(0, i as int));
            assert forall|v: int| 0 <= v < 256 implies #[trigger] hist@[v] == occurrences(s.subrange(0, i + 1), v as u8) by {
                assert(s.subrange(0, i + 1).last() == b);
            }
        }
        i += 1;
    }
    proof {
        assert(s.subrange(0, sample_len as int) == s);
    }
    let mut non_zero: u32 = 0;
    let mut max_count: u32 = 1;
    let mut v: usize = 0;
    while v < 256
        invariant
            0 <= v <= 256,
            hist@.len() == 256,
            s.len() <= 512,
            forall|w: int| 0 <= w < 256 ==> #[trigger] hist@[w] == occurrences(s, w as u8),
            non_zero == nonzero_upto(s, v as int),
            non_zero <= v,
            max_count == max_occ_upto(s, v as int),
            1 <= max_count <= 512,
        decreases 256 - v,
    {
        proof {
            lemma_occ_bound(s, v as u8);
        }
        let c = hist[v];
        if c > 0 {
            non_zero += 1;
        }
        if c > max_count {
            max_count = c;
        }
        v += 1;
    }
    let frac_non_zero = (non_zero * 1000) / 256;
    let uniformity = (sample_len as u32 * 1000) / (max_count * 256);
    let total = frac_non_zero.saturating_add(uniformity / 4);
    proof {
        assert(sample@ == prefix(data@, 512));
    }
    if total > 1000 { 1000 } else { total }
}

/// A policy that may override the automatic choice.
#[derive(Clone, Copy, Debug, PartialEq, Eq, Structural)]
pub enum CompressionPolicy {
    Auto,
    ForceNone,
    ForceLz4,
    ForceZstd,
}

impl CompressionPolicy {
    /// The decision once the policy is applied.
    pub fn apply(&self, decision: CompressionDecision) -> (r: CompressionDecision)
        ensures
            *self == CompressionPolicy::Auto ==> r == decision,
            *self == CompressionPolicy::ForceNone ==> r.algorithm == CompressionType::Uncompressed,
            *self == CompressionPolicy::ForceLz4 ==> r.algorithm == CompressionType::Lz4,
            *self == CompressionPolicy::ForceZstd ==> r.algorithm == CompressionType::Zstd,
            r.hint_used == decision.hint_used,
            r.data_size == decision.data_size,
    {
        match self {
            CompressionPolicy::Auto => decision,
            CompressionPolicy::ForceNone => CompressionDecision::none("policy_force_none", decision.hint_used, decision.data_size),
            CompressionPolicy::ForceLz4 => CompressionDecision::lz4("policy_force_lz4", decision.hint_used, decision.data_size),
            CompressionPolicy::ForceZstd => CompressionDecision::zstd("policy_force_zstd", decision.hint_used, decision.data_size),
        }
    }
}

/// Counters of compression decisions.
pub struct CompressionRegistry {
    pub none_decisions: u64,
    pub lz4_decisions: u64,
    pub zstd_decisions: u64,
    pub bytes_saved: u64,
    pub bytes_processed: u64,
}

/// `a + b` modulo 2^64.
pub open spec fn wadd(a: u64, b: u64) -> u64 {
    if a + b > u64::MAX { (a + b - u64::MAX - 1) as u64 } else { (a + b) as u64 }
}

/// `a + b` clamped to `u64::MAX`.
pub open spec fn sadd(a: u64, b: u64) -> u64 {
    if a + b > u64::MAX { u64::MAX } else { (a + b) as u64 }
}

impl CompressionRegistry {
    /// All counters zero.
    pub fn new() -> (r: CompressionRegistry)
        ensures
            r.none_decisions == 0 && r.lz4_decisions == 0 && r.zstd_decisions == 0 && r.bytes_saved == 0
                && r.bytes_processed == 0,
    {
        CompressionRegistry { none_decisions: 0, lz4_decisions: 0, zstd_decisions: 0, bytes_saved: 0, bytes_processed: 0 }
    }

    /// Counts a decision for `algo` on `data_size` bytes.
    pub fn record_decision(&mut self, algo: CompressionType, data_size: u64)
        ensures
            final(self).none_decisions == (if algo == CompressionType::Uncompressed { wadd(old(self).none_decisions, 1) } else { old(self).none_decisions }),
            final(self).lz4_decisions == (if algo == CompressionType::Lz4 { wadd(old(self).lz4_decisions, 1) } else { old(self).lz4_decisions }),
            final(self).zstd_decisions == (if algo == CompressionType::Zstd { wadd(old(self).zstd_decisions, 1) } else { old(self).zstd_decisions }),
            final(self).bytes_processed == wadd(old(self).bytes_processed, data_size),
            final(self).bytes_saved == old(self).bytes_saved,
    {
        match algo {
            CompressionType::Uncompressed => { self.none_decisions = self.none_decisions.wrapping_add(1); },
            CompressionType::Lz4 => { self.lz4_decisions = self.lz4_decisions.wrapping_add(1); },
            CompressionType::Zstd => { self.zstd_decisions = self.zstd_decisions.wrapping_add(1); },
        }
        self.bytes_processed = self.bytes_processed.wrapping_add(data_size);
    }

    /// Counts the bytes saved when `compressed < original`.
    pub fn record_savings(&mut self, original: u64, compressed: u64)
        ensures
            final(self).bytes_saved == (if original > compressed { wadd(old(self).bytes_saved, (original - compressed) as u64) } else { old(self).bytes_saved }),
            final(self).none_decisions == old(self).none_decisions,
            final(self).lz4_decisions == old(self).lz4_decisions,
            final(self).zstd_decisions == old(self).zstd_decisions,
            final(self).bytes_processed == old(self).bytes_processed,
    {
        if original > compressed {
            self.bytes_saved = self.bytes_saved.wrapping_add(original - compressed);
        }
    }

    /// All decisions (saturating).
    pub fn total_decisions(&self) -> (r: u64)
        ensures
            r == sadd(sadd(self.none_decisions, self.lz4_decisions), self.zstd_decisions),
    {
        self.none_decisions.saturating_add(self.lz4_decisions).saturating_add(self.zstd_decisions)
    }

    /// Share of LZ4 decisions in percent.
    pub fn lz4_pct(&self) -> (r: u64)
        requires
            self.lz4_decisions * 100 <= u64::MAX,
        ensures
            ({
                let t = sadd(sadd(self.none_decisions, self.lz4_decisions), self.zstd_decisions);
                r == (if t == 0 { 0 } else { self.lz4_decisions * 100 / (t as int) })
            }),
    {
        let t = self.total_decisions();
        if t == 0 {
            return 0;
        }
        self.lz4_decisions * 100 / t
    }

    /// Share of zstd decisions in percent.
    pub fn zstd_pct(&self) -> (r: u64)
        requires
            self.zstd_decisions * 100 <= u64::MAX,
        ensures
            ({
                let t = sadd(sadd(self.none_decisions, self.lz4_decisions), self.zstd_decisions);
                r == (if t == 0 { 0 } else { self.zstd_decisions * 100 / (t as int) })
            }),
    {
        let t = self.total_decisions();
        if t == 0 {
            return 0;
        }
        self.zstd_decisions * 100 / t
    }
}

/// A byte that counts as text: printable ASCII, newline, carriage return or tab.
pub open spec fn text_byte(b: u8) -> bool {
    (0x20 <= b <= 0x7e) || b == 10 || b == 13 || b == 9
}

/// Text bytes among the first `k` of `s`.
pub open spec fn text_count(s: Seq<u8>, k: int) -> nat
    decreases k,
{
    if k <= 0 { 0 } else { text_count(s, k - 1) + (if text_byte(s[k - 1]) { 1nat } else { 0nat }) }
}

/// At least 85% of the first 128 bytes are text bytes (true when empty).
pub open spec fn likely_text_spec(d: Seq<u8>) -> bool {
    let s = prefix(d, 128);
    s.len() == 0 || text_count(s, s.len() as int) * 100 / s.len() >= 85
}

/// True iff at least 85% of the first 128 bytes are text bytes.
pub fn is_likely_text(data: &[u8]) -> (r: bool)
    ensures
        r == likely_text_spec(data@),
{
    let n = if data.len() < 128 { data.len() } else { 128 };
    let sample = vstd::slice::slice_subrange(data, 0, n);
    let mut count: usize = 0;
    let mut i: usize = 0;
    while i < n
        invariant
            0 <= i <= n,
            n == sample@.len(),
            n <= 128,
            count == text_count(sample@, i as int),
            count <= i,
        decreases n - i,
    {
        let b = sample[i];
        if (b >= 0x20 && b <= 0x7e) || b == 10 || b == 13 || b == 9 {
            count += 1;
        }
        i += 1;
    }
    proof {
        assert(sample@ == prefix(data@, 128));
    }
    n == 0 || (count * 100 / n) >= 85
}

/// The first four bytes match a known compressed or media format.
pub open spec fn media_magic_spec(d: Seq<u8>) -> bool {
    d.len() >= 4 && {
        ||| (d[0] == 0xff && d[1] == 0xd8 && d[2] == 0xff)
        ||| (d[0] == 0x89 && d[1] == 0x50 && d[2] == 0x4e && d[3] == 0x47)
        ||| (d[0] == 0x52 && d[1] == 0x49 && d[2] == 0x46 && d[3] == 0x46)
        ||| (d[0] == 0xff && d[1] == 0xfb)
        ||| (d[0] == 0x50 && d[1] == 0x4b && d[2] == 0x03 && d[3] == 0x04)
        ||| (d[0] == 0x1f && d[1] == 0x8b)
    }
}

/// True iff the data starts with a JPEG, PNG, RIFF, MP3, ZIP or gzip signature.
pub fn is_known_media_magic(data: &[u8]) -> (r: bool)
    ensures
        r == media_magic_spec(data@),
{
    if data.len() < 4 {
        return false;
    }
    let (a, b, c, d) = (data[0], data[1], data[2], data[3]);
    (a == 0xff && b == 0xd8 && c == 0xff) || (a == 0x89 && b == 0x50 && c == 0x4e && d == 0x47)
        || (a == 0x52 && b == 0x49 && c == 0x46 && d == 0x46) || (a == 0xff && b == 0xfb)
        || (a == 0x50 && b == 0x4b && c == 0x03 && d == 0x04) || (a == 0x1f && b == 0x8b)
}

/// The hint guessed from the data.
pub open spec fn hint_spec(d: Seq<u8>) -> ContentHint {
    if d.len() < 4 {
        ContentHint::Unknown
    } else if media_magic_spec(d) {
        ContentHint::AlreadyCompressed
    } else if likely_text_spec(d) {
        ContentHint::Text
    } else {
        ContentHint::Binary
    }
}

/// Guesses a hint from the first bytes of the data.
pub fn auto_detect_hint(data: &[u8]) -> (r: ContentHint)
    ensures
        r == hint_spec(data@),
{
    if data.len() < 4 {
        return ContentHint::Unknown;
    }
    if is_known_media_magic(data) {
        return ContentHint::AlreadyCompressed;
    }
    if is_likely_text(data) {
        return ContentHint::Text;
    }
    ContentHint::Binary
}

/// Chooses the algorithm with a guessed hint.
pub fn choose_compression_auto(data: &[u8]) -> (r: CompressionDecision)
    ensures
        r.algorithm == choice_spec(data@.len() as u64, hint_spec(data@), entropy_spec(data@)),
        r.hint_used == hint_spec(data@),
        r.data_size == data@.len(),
{
    let hint = auto_detect_hint(data);
    choose_compression(data, hint)
}

/// Binary or unknown data large enough to compress goes to LZ4 when its
/// sampled entropy is at most `MAX_ENTROPY_PERMILLE`, and is left
/// uncompressed above it.
pub proof fn lemma_binary_choice_follows_entropy(data: Seq<u8>, hint: ContentHint)
    requires
        hint == ContentHint::Binary || hint == ContentHint::Unknown,
        MIN_COMPRESSIBLE_BYTES <= data.len() <= u64::MAX,
    ensures
        entropy_spec(data) <= MAX_ENTROPY_PERMILLE ==> choice_spec(data.len() as u64, hint, entropy_spec(data)) == CompressionType::Lz4,
        entropy_spec(data) > MAX_ENTROPY_PERMILLE ==> choice_spec(data.len() as u64, hint, entropy_spec(data))
            == CompressionType::Uncompressed,
{
}

/// In a sequence of one repeated byte `c`, exactly one value below `k` occurs
/// when `c < k`, none otherwise.
proof fn lemma_distinct_uniform(s: Seq<u8>, c: u8, k: int)
    requires
        s.len() > 0,
        forall|i: int| 0 <= i < s.len() ==> s[i] == c,
        0 <= k <= 256,
    ensures
        distinct_upto(s, k) == (if (c as int) < k { 1nat } else { 0nat }),
    decreases k,
{
    if k > 0 {
        lemma_distinct_uniform(s, c, k - 1);
        if ((k - 1) as u8) == c {
            assert(s[0] == c);
            assert(s.contains((k - 1) as u8));
        } else {
            assert(!s.contains((k - 1) as u8));
        }
    }
}

/// Data made of one repeated byte has the lowest sampled entropy (3 per
/// mille); binary or unknown such data large enough to compress goes to LZ4.
pub proof fn lemma_uniform_binary_gets_lz4(data: Seq<u8>, hint: ContentHint)
    requires
        hint == ContentHint::Binary || hint == ContentHint::Unknown,
        MIN_COMPRESSIBLE_BYTES <= data.len() <= u64::MAX,
        forall|i: int| 0 <= i < data.len() ==> #[trigger] data[i] == data[0],
    ensures
        entropy_spec(data) == 3,
        choice_spec(data.len() as u64, hint, entropy_spec(data)) == CompressionType::Lz4,
{
    let p = prefix(data, 256);
    assert(p.len() == 256);
    lemma_distinct_uniform(p, data[0], 256);
    assert(distinct_upto(p, 256) == 1);
}

/// What each kind of data gets: nothing below `MIN_COMPRESSIBLE_BYTES` and
/// nothing for media or already compressed data; zstd for structured data;
/// text and metadata LZ4 when small and zstd from `ZSTD_MIN_BYTES` on. Only
/// binary or unknown data depends on its entropy.
pub proof fn lemma_choice_by_kind(size: u64, hint: ContentHint, e: u32)
    ensures
        size < MIN_COMPRESSIBLE_BYTES ==> choice_spec(size, hint, e) == CompressionType::Uncompressed,
        hint == ContentHint::Media || hint == ContentHint::AlreadyCompressed ==> choice_spec(size, hint, e)
            == CompressionType::Uncompressed,
        size >= MIN_COMPRESSIBLE_BYTES && hint == ContentHint::StructuredData ==> choice_spec(size, hint, e) == CompressionType::Zstd,
        size >= MIN_COMPRESSIBLE_BYTES && (hint == ContentHint::Text || hint == ContentHint::Metadata) ==> choice_spec(size, hint, e) == (
        if size < ZSTD_MIN_BYTES { CompressionType::Lz4 } else { CompressionType::Zstd }),
        hint != ContentHint::Binary && hint != ContentHint::Unknown ==> forall|e2: u32| choice_spec(size, hint, e) == #[trigger] choice_spec(
            size, hint, e2),
{
}

} // verus!
