//! Free-block bitmap of the heap: one bit per 4 KB block, 64 blocks per word.
//!
//! Convention: bit 0 = free, bit 1 = used.
use vstd::prelude::*;
use crate::types::ExofsError;

verus! {

/// Number of blocks per bitmap word.
pub const BLOCKS_PER_WORD: u64 = 64;

/// A run of contiguous free blocks.
#[derive(Clone, Copy, Debug, PartialEq, Eq, Structural)]
pub struct FreeRun {
    /// First block of the run.
    pub start: u64,
    /// Number of blocks in the run.
    pub len: u64,
}

// ── Bit-level facts ─────────────────────────────────────────────────────────

/// True iff bit `b` of `w` is set (block used).
pub open spec fn used_bit(w: u64, b: u64) -> bool {
    (w >> b) & 1u64 == 1u64
}

proof fn lemma_set_bit(w: u64, b: u64, c: u64)
    requires
        b < 64,
        c < 64,
    ensures
        used_bit(w | (1u64 << b), b),
        c != b ==> (used_bit(w | (1u64 << b), c) == used_bit(w, c)),
        (w & (1u64 << b) == 0u64) == !used_bit(w, b),
{
    assert(((w | (1u64 << b)) >> b) & 1u64 == 1u64) by (bit_vector)
        requires b < 64;
    assert(c != b ==> (((w | (1u64 << b)) >> c) & 1u64 == (w >> c) & 1u64)) by (bit_vector)
        requires b < 64, c < 64;
    assert((w & (1u64 << b) == 0u64) == !((w >> b) & 1u64 == 1u64)) by (bit_vector)
        requires b < 64;
}

proof fn lemma_clear_bit(w: u64, b: u64, c: u64)
    requires
        b < 64,
        c < 64,
    ensures
        !used_bit(w & !(1u64 << b), b),
        c != b ==> (used_bit(w & !(1u64 << b), c) == used_bit(w, c)),
        (w & (1u64 << b) != 0u64) == used_bit(w, b),
{
    assert(((w & !(1u64 << b)) >> b) & 1u64 == 0u64) by (bit_vector)
        requires b < 64;
    assert(c != b ==> (((w & !(1u64 << b)) >> c) & 1u64 == (w >> c) & 1u64)) by (bit_vector)
        requires b < 64, c < 64;
    assert((w & (1u64 << b) != 0u64) == ((w >> b) & 1u64 == 1u64)) by (bit_vector)
        requires b < 64;
}

proof fn lemma_full_word(b: u64)
    requires
        b < 64,
    ensures
        used_bit(0xffff_ffff_ffff_ffffu64, b),
        !used_bit(0u64, b),
{
    assert((0xffff_ffff_ffff_ffffu64 >> b) & 1u64 == 1u64) by (bit_vector)
        requires b < 64;
    assert((0u64 >> b) & 1u64 == 0u64) by (bit_vector);
}

proof fn lemma_tail_mask(rem: u64, b: u64)
    requires
        0 < rem < 64,
        b < 64,
    ensures
        used_bit(!(((1u64 << rem) - 1u64) as u64), b) == (b >= rem),
{
    assert((((!(((1u64 << rem) - 1u64) as u64)) >> b) & 1u64 == 1u64) == (b >= rem)) by (bit_vector)
        requires 0 < rem < 64, b < 64;
}

// ── Sequence-level model ────────────────────────────────────────────────────

/// Number of free blocks in `s`.
pub open spec fn count_free(s: Seq<bool>) -> nat
    decreases s.len(),
{
    if s.len() == 0 {
        0
    } else {
        count_free(s.drop_last()) + (if s.last() { 1nat } else { 0nat })
    }
}

/// Number of words needed for `n` blocks.
pub open spec fn words_spec(n: u64) -> int {
    (n + 63) / 64
}

/// Largest block count a map accepts: the word count must not overflow.
pub const MAX_MAP_BLOCKS: u64 = 0xffff_ffff_ffff_ffc0;

proof fn lemma_word_index(i: int, t: int)
    requires
        0 <= i < t,
    ensures
        i / 64 < (t + 63) / 64,
        ((t + 63) / 64) * 64 >= t,
        ((t + 63) / 64) * 64 < t + 64,
{
    assert(i / 64 < (t + 63) / 64) by (nonlinear_arith)
        requires 0 <= i < t;
    assert(((t + 63) / 64) * 64 >= t) by (nonlinear_arith)
        requires 0 <= t;
    assert(((t + 63) / 64) * 64 < t + 64) by (nonlinear_arith)
        requires 0 <= t;
}

proof fn lemma_bit01(w: u64, b: u64)
    requires
        b < 64,
    ensures
        ((w >> b) & 1u64 == 0u64) == !used_bit(w, b),
{
    assert(((w >> b) & 1u64 == 0u64) == !((w >> b) & 1u64 == 1u64)) by (bit_vector);
}

proof fn lemma_shift_pos(rem: u64)
    requires
        0 < rem < 64,
    ensures
        (1u64 << rem) >= 1u64,
{
    assert((1u64 << rem) >= 1u64) by (bit_vector)
        requires 0 < rem < 64;
}

/// Blocks `[s, s + n)` exist and are all free.
pub open spec fn run_free(v: Seq<bool>, s: int, n: int) -> bool {
    0 <= s && s + n <= v.len() && forall|i: int| s <= i < s + n ==> #[trigger] v[i]
}

/// Length of the run of free blocks that ends just before block `k`.
pub open spec fn trail(v: Seq<bool>, k: int) -> nat
    decreases k,
{
    if k <= 0 || k > v.len() || !v[k - 1] {
        0
    } else {
        trail(v, k - 1) + 1
    }
}

/// `r` is the first-fit answer for `n` blocks searched from block `from`.
pub open spec fn first_fit_from(v: Seq<bool>, n: int, from: int, r: Option<u64>) -> bool {
    match r {
        Some(s) => s >= from && run_free(v, s as int, n) && forall|t: int|
            from <= t < s ==> !run_free(v, t, n),
        None => forall|t: int| from <= t ==> !run_free(v, t, n),
    }
}

/// Longest free run among the first `k` blocks.
pub open spec fn largest_upto(v: Seq<bool>, k: int) -> nat
    decreases k,
{
    if k <= 0 {
        0
    } else {
        let prev = largest_upto(v, k - 1);
        let t = trail(v, k);
        if t > prev { t } else { prev }
    }
}

/// Number of free runs that start among the first `k` blocks.
pub open spec fn run_count_upto(v: Seq<bool>, k: int) -> nat
    decreases k,
{
    if k <= 0 {
        0
    } else {
        run_count_upto(v, k - 1) + (if v[k - 1] && (k == 1 || !v[k - 2]) { 1nat } else { 0nat })
    }
}

/// The maximal free runs among the first `k` blocks, in order.
pub open spec fn runs_upto(v: Seq<bool>, k: int) -> Seq<FreeRun>
    decreases k,
{
    if k <= 0 {
        Seq::empty()
    } else {
        let prev = runs_upto(v, k - 1);
        if !v[k - 1] {
            prev
        } else if k >= 2 && v[k - 2] {
            prev.update(
                prev.len() - 1,
                FreeRun { start: prev.last().start, len: (prev.last().len + 1) as u64 },
            )
        } else {
            prev.push(FreeRun { start: (k - 1) as u64, len: 1 })
        }
    }
}

/// The maximal free runs of `v`, in order.
pub open spec fn free_runs_spec(v: Seq<bool>) -> Seq<FreeRun> {
    runs_upto(v, v.len() as int)
}

/// Sets blocks `[start, end)` of `v` to `value`.
pub open spec fn set_range(v: Seq<bool>, start: int, end: int, value: bool) -> Seq<bool> {
    Seq::new(v.len(), |i: int| if start <= i < end { value } else { v[i] })
}

pub proof fn lemma_count_update(s: Seq<bool>, i: int, b: bool)
    requires
        0 <= i < s.len(),
    ensures
        count_free(s.update(i, b)) == count_free(s) - (if s[i] { 1int } else { 0int }) + (if b { 1int } else { 0int }),
    decreases s.len(),
{
    let t = s.update(i, b);
    if i == s.len() - 1 {
        assert(t.drop_last() =~= s.drop_last());
    } else {
        assert(t.drop_last() =~= s.drop_last().update(i, b));
        lemma_count_update(s.drop_last(), i, b);
    }
}

pub proof fn lemma_count_bound(s: Seq<bool>)
    ensures
        count_free(s) <= s.len(),
    decreases s.len(),
{
    if s.len() > 0 {
        lemma_count_bound(s.drop_last());
    }
}

pub proof fn lemma_count_all(s: Seq<bool>, b: bool)
    requires
        forall|i: int| 0 <= i < s.len() ==> s[i] == b,
    ensures
        count_free(s) == (if b { s.len() } else { 0 }),
    decreases s.len(),
{
    if s.len() > 0 {
        lemma_count_all(s.drop_last(), b);
    }
}

/// A free run of `n` blocks implies at least `n` free blocks.
pub proof fn lemma_run_count(v: Seq<bool>, s: int, n: int)
    requires
        n >= 0,
        run_free(v, s, n),
    ensures
        count_free(v) >= n,
    decreases v.len(),
{
    if n > 0 {
        let last = v.len() - 1;
        if s + n - 1 == last {
            lemma_run_count(v.drop_last(), s, n - 1);
            assert(run_free(v.drop_last(), s, n - 1));
        } else {
            assert(run_free(v.drop_last(), s, n));
            lemma_run_count(v.drop_last(), s, n);
        }
    }
}

proof fn lemma_trail_bound(v: Seq<bool>, k: int)
    ensures
        trail(v, k) <= (if k < 0 { 0 } else { k }),
    decreases k,
{
    if k > 0 && k <= v.len() && v[k - 1] {
        lemma_trail_bound(v, k - 1);
    }
}

/// `trail(v, k) >= n` iff the `n` blocks before `k` are free.
/// The longest free run among the first `k` blocks has at most `k` blocks.
pub proof fn lemma_largest_bound(v: Seq<bool>, k: int)
    requires
        0 <= k <= v.len(),
    ensures
        largest_upto(v, k) <= k,
    decreases k,
{
    if k > 0 {
        lemma_largest_bound(v, k - 1);
        lemma_trail_bound(v, k);
    }
}

proof fn lemma_trail_run(v: Seq<bool>, k: int, n: int)
    requires
        0 <= k <= v.len(),
        0 <= n <= k,
    ensures
        (trail(v, k) >= n) == run_free(v, k - n, n),
    decreases n,
{
    if n > 0 {
        lemma_trail_run(v, k - 1, n - 1);
        if v[k - 1] {
            assert(trail(v, k) == trail(v, k - 1) + 1);
            if run_free(v, k - 1 - (n - 1), n - 1) {
                assert forall|i: int| k - n <= i < k implies #[trigger] v[i] by {
                    if i < k - 1 {
                        assert(k - 1 - (n - 1) <= i < k - 1 - (n - 1) + (n - 1));
                    }
                }
            }
            if run_free(v, k - n, n) {
                assert forall|i: int| k - 1 - (n - 1) <= i < k - 1 - (n - 1) + (n - 1) implies #[trigger] v[i] by {
                    assert(k - n <= i < k - n + n);
                }
            }
        } else {
            assert(trail(v, k) == 0);
            assert(!v[k - 1]);
            if run_free(v, k - n, n) {
                assert(k - n <= k - 1 < k - n + n);
            }
        }
    }
}


/// The free runs of a prefix are non-empty, ordered, separated by at least one
/// used block, and end within the prefix; the last run reaches the end of the
/// prefix exactly when the last block of the prefix is free.
pub proof fn lemma_runs_separated(v: Seq<bool>, k: int)
    requires
        0 <= k <= v.len(),
        v.len() <= u64::MAX,
    ensures
        ({
            let r = runs_upto(v, k);
            &&& forall|i: int| 0 <= i < r.len() ==> #[trigger] r[i].len >= 1 && r[i].start + r[i].len <= k
            &&& forall|i: int| 0 <= i < r.len() - 1 ==> #[trigger] r[i].start + r[i].len < r[i + 1].start
            &&& (r.len() > 0 && r.last().start + r.last().len == k) == (k > 0 && v[k - 1])
        }),
    decreases k,
{
    if k > 0 {
        lemma_runs_separated(v, k - 1);
        let prev = runs_upto(v, k - 1);
        let r = runs_upto(v, k);
        if !v[k - 1] {
            assert(r == prev);
        } else if k >= 2 && v[k - 2] {
            assert(prev.len() > 0);
            assert forall|i: int| 0 <= i < r.len() - 1 implies #[trigger] r[i].start + r[i].len < r[i + 1].start by {
                if i + 1 == r.len() - 1 {
                    assert(prev[i].start + prev[i].len < prev[i + 1].start);
                }
            }
        } else {
            assert forall|i: int| 0 <= i < r.len() - 1 implies #[trigger] r[i].start + r[i].len < r[i + 1].start by {
                if i == prev.len() - 1 {
                    assert(prev.last().start + prev.last().len <= k - 1);
                    assert(prev.last().start + prev.last().len != k - 1);
                } else {
                    assert(prev[i].start + prev[i].len < prev[i + 1].start);
                }
            }
        }
    }
}

/// Every block of a free run among the first `k` blocks is free.
pub proof fn lemma_runs_free(v: Seq<bool>, k: int)
    requires
        0 <= k <= v.len(),
        v.len() <= u64::MAX,
    ensures
        forall|i: int, j: int| #![trigger runs_upto(v, k)[i], v[j]] 0 <= i < runs_upto(v, k).len() && runs_upto(v, k)[i].start <= j
            < runs_upto(v, k)[i].start + runs_upto(v, k)[i].len ==> v[j],
    decreases k,
{
    if k > 0 {
        lemma_runs_free(v, k - 1);
        lemma_runs_separated(v, k - 1);
        let prev = runs_upto(v, k - 1);
        let r = runs_upto(v, k);
        if !v[k - 1] {
            assert(r == prev);
        } else if k >= 2 && v[k - 2] {
            assert forall|i: int, j: int| #![trigger r[i], v[j]] 0 <= i < r.len() && r[i].start <= j < r[i].start + r[i].len implies v[j] by {
                if i < r.len() - 1 {
                    assert(r[i] == prev[i]);
                } else if j < k - 1 {
                    assert(r[i].start == prev[i].start && r[i].len == prev[i].len + 1);
                }
            }
        } else {
            assert forall|i: int, j: int| #![trigger r[i], v[j]] 0 <= i < r.len() && r[i].start <= j < r[i].start + r[i].len implies v[j] by {
                if i < prev.len() {
                    assert(r[i] == prev[i]);
                }
            }
        }
    }
}

// ── The map ─────────────────────────────────────────────────────────────────

/// Bitmap of the free/used state of every heap block.
pub struct HeapFreeMap {
    bits: Vec<u64>,
    total_blocks: u64,
    free_count: u64,
    high_water: u64,
}

impl View for HeapFreeMap {
    /// `v[i]` is true iff block `i` is free.
    type V = Seq<bool>;

    closed spec fn view(&self) -> Seq<bool> {
        Seq::new(self.total_blocks as nat, |i: int| !used_bit(self.bits@[i / 64], (i % 64) as u64))
    }
}

impl HeapFreeMap {
    /// Internal consistency: word count matches the block count and the free
    /// counter equals the number of free blocks.
    pub closed spec fn wf(&self) -> bool {
        &&& self.total_blocks > 0
        &&& self.total_blocks <= MAX_MAP_BLOCKS
        &&& self.bits@.len() == words_spec(self.total_blocks)
        &&& self.free_count == count_free(self@)
    }

    /// Total number of blocks (spec).
    pub closed spec fn total_spec(&self) -> u64 {
        self.total_blocks
    }

    /// High-water mark (spec).
    pub closed spec fn high_water_spec(&self) -> u64 {
        self.high_water
    }

    /// The bitmap words (spec).
    pub closed spec fn words(&self) -> Seq<u64> {
        self.bits@
    }

    /// A well-formed map has `total_spec()` blocks, between 1 and `MAX_MAP_BLOCKS`.
    pub proof fn lemma_len(&self)
        requires
            self.wf(),
        ensures
            self@.len() == self.total_spec(),
            0 < self.total_spec() <= MAX_MAP_BLOCKS,
    {
    }

    /// The bitmap of a well-formed map fits in memory.
    pub proof fn lemma_words_len(&self)
        requires
            self.wf(),
        ensures
            words_spec(self.total_spec()) <= usize::MAX,
    {
        assert(self.bits@.len() == self.bits.len());
    }

    proof fn lemma_view_index(&self, block: u64)
        requires
            self.wf(),
            block < self.total_blocks,
        ensures
            self@[block as int] == !used_bit(self.bits@[(block / 64) as int], block % 64),
            ((block / 64) as usize) as int == (block as int) / 64,
            (block as int) / 64 < self.bits@.len(),
    {
        lemma_word_index(block as int, self.total_blocks as int);
        assert(self.bits@.len() == self.bits.len());
    }

    proof fn lemma_words_cover(&self)
        requires
            self.wf(),
        ensures
            forall|i: int| 0 <= i < self.total_blocks ==> #[trigger] (i / 64) < self.bits@.len(),
            self.bits@.len() * 64 <= u64::MAX + 1,
            self.bits@.len() * 64 >= self.total_blocks,
    {
        assert forall|i: int| 0 <= i < self.total_blocks implies #[trigger] (i / 64) < self.bits@.len() by {
            lemma_word_index(i, self.total_blocks as int);
        }
        lemma_word_index(0, self.total_blocks as int);
    }

    /// A map of `total_blocks` free blocks; the bits past the last block are set.
    pub fn new(total_blocks: u64) -> (r: Result<HeapFreeMap, ExofsError>)
        ensures
            total_blocks == 0 ==> r == Err::<HeapFreeMap, ExofsError>(ExofsError::InvalidArgument),
            total_blocks > 0 && (total_blocks > MAX_MAP_BLOCKS || words_spec(total_blocks) > usize::MAX) ==> r == Err::<HeapFreeMap, ExofsError>(ExofsError::NoMemory),
            0 < total_blocks <= MAX_MAP_BLOCKS && words_spec(total_blocks) <= usize::MAX ==> (r matches Ok(m) && {
                &&& m.wf()
                &&& m.total_spec() == total_blocks
                &&& m@ == Seq::new(total_blocks as nat, |i: int| true)
                &&& m.high_water_spec() == 0
                &&& forall|i: int| total_blocks <= i < m.words().len() * 64 ==> used_bit(#[trigger] m.words()[i / 64], (i % 64) as u64)
            }),
    {
        if total_blocks == 0 {
            return Err(ExofsError::InvalidArgument);
        }
        if total_blocks > MAX_MAP_BLOCKS {
            return Err(ExofsError::NoMemory);
        }
        let n_words64 = words_for_blocks(total_blocks);
        if n_words64 > usize::MAX as u64 {
            return Err(ExofsError::NoMemory);
        }
        let n_words = n_words64 as usize;
        let mut bits: Vec<u64> = vec![0u64; n_words];
        let rem = total_blocks % BLOCKS_PER_WORD;
        proof {
            lemma_word_index(0, total_blocks as int);
        }
        if rem != 0 && n_words > 0 {
            proof {
                lemma_shift_pos(rem);
            }
            let last_valid_mask: u64 = (1u64 << rem) - 1;
            bits.set(n_words - 1, !last_valid_mask);
        }
        let m = HeapFreeMap { bits, total_blocks, free_count: total_blocks, high_water: 0 };
        proof {
            assert forall|i: int| 0 <= i < total_blocks implies #[trigger] m@[i] == true by {
                let w = i / 64;
                let b = (i % 64) as u64;
                lemma_full_word(b);
                if rem != 0 && w == n_words - 1 {
                    lemma_tail_mask(rem, b);
                    assert(i < total_blocks);
                    assert(b < rem) by {
                        assert(total_blocks == (n_words - 1) * 64 + rem) by (nonlinear_arith)
                            requires n_words == (total_blocks + 63) / 64, rem == total_blocks % 64, rem != 0;
                        assert(i == w * 64 + b) by (nonlinear_arith)
                            requires w == i / 64, b == i % 64;
                    }
                }
            }
            assert(m@ =~= Seq::new(total_blocks as nat, |i: int| true));
            lemma_count_all(m@, true);
            assert forall|i: int| total_blocks <= i < m.bits@.len() * 64 implies used_bit(#[trigger] m.bits@[i / 64], (i % 64) as u64) by {
                let b = (i % 64) as u64;
                assert(rem != 0 && i / 64 == n_words - 1 && b >= rem) by (nonlinear_arith)
                    requires n_words == (total_blocks + 63) / 64, rem == total_blocks % 64,
                        total_blocks <= i < n_words * 64, b == i % 64, total_blocks > 0;
                lemma_tail_mask(rem, b);
            }
        }
        Ok(m)
    }

    /// A map of `total_blocks` used blocks.
    pub fn new_full(total_blocks: u64) -> (r: Result<HeapFreeMap, ExofsError>)
        ensures
            total_blocks == 0 ==> r == Err::<HeapFreeMap, ExofsError>(ExofsError::InvalidArgument),
            total_blocks > 0 && (total_blocks > MAX_MAP_BLOCKS || words_spec(total_blocks) > usize::MAX) ==> r == Err::<HeapFreeMap, ExofsError>(ExofsError::NoMemory),
            0 < total_blocks <= MAX_MAP_BLOCKS && words_spec(total_blocks) <= usize::MAX ==> (r matches Ok(m) && {
                &&& m.wf()
                &&& m.total_spec() == total_blocks
                &&& m@ == Seq::new(total_blocks as nat, |i: int| false)
                &&& m.high_water_spec() == total_blocks - 1
            }),
    {
        if total_blocks == 0 {
            return Err(ExofsError::InvalidArgument);
        }
        if total_blocks > MAX_MAP_BLOCKS {
            return Err(ExofsError::NoMemory);
        }
        let n_words64 = words_for_blocks(total_blocks);
        if n_words64 > usize::MAX as u64 {
            return Err(ExofsError::NoMemory);
        }
        let n_words = n_words64 as usize;
        let bits: Vec<u64> = vec![0xffff_ffff_ffff_ffffu64; n_words];
        let m = HeapFreeMap { bits, total_blocks, free_count: 0, high_water: total_blocks - 1 };
        proof {
            assert forall|i: int| 0 <= i < total_blocks implies #[trigger] m@[i] == false by {
                lemma_full_word((i % 64) as u64);
                lemma_word_index(i, total_blocks as int);
            }
            assert(m@ =~= Seq::new(total_blocks as nat, |i: int| false));
            lemma_count_all(m@, false);
        }
        Ok(m)
    }

    /// True iff `block` exists and is free.
    pub fn is_free(&self, block: u64) -> (r: bool)
        requires
            self.wf(),
        ensures
            r == (block < self.total_spec() && self@[block as int]),
    {
        if block >= self.total_blocks {
            return false;
        }
        proof {
            self.lemma_view_index(block);
        }
        let word = (block / BLOCKS_PER_WORD) as usize;
        let bit = block % BLOCKS_PER_WORD;
        proof {
            lemma_bit01(self.bits@[word as int], bit);
        }
        (self.bits[word] >> bit) & 1 == 0
    }

    /// True iff `block` does not exist or is used.
    pub fn is_used(&self, block: u64) -> (r: bool)
        requires
            self.wf(),
        ensures
            r == !(block < self.total_spec() && self@[block as int]),
    {
        !self.is_free(block)
    }

    /// Number of free blocks.
    pub fn free_blocks(&self) -> (r: u64)
        requires
            self.wf(),
        ensures
            r == count_free(self@),
    {
        self.free_count
    }

    /// Number of used blocks.
    pub fn used_blocks(&self) -> (r: u64)
        requires
            self.wf(),
        ensures
            r == self.total_spec() - count_free(self@),
    {
        proof {
            lemma_count_bound(self@);
        }
        self.total_blocks - self.free_count
    }

    /// Total number of blocks.
    pub fn total_blocks(&self) -> (r: u64)
        ensures
            r == self.total_spec(),
    {
        self.total_blocks
    }

    /// Share of used blocks in percent.
    pub fn used_pct(&self) -> (r: u64)
        requires
            self.wf(),
        ensures
            r == (self.total_spec() - count_free(self@)) * 100 / (self.total_spec() as int),
    {
        let used = self.used_blocks();
        let r = ((used as u128) * 100 / (self.total_blocks as u128)) as u64;
        proof {
            assert(used * 100 / (self.total_blocks as int) <= 100) by (nonlinear_arith)
                requires used <= self.total_blocks, self.total_blocks > 0;
        }
        r
    }

    /// First-fit search for `n` contiguous free blocks.
    pub fn find_free_run(&self, n: u64) -> (r: Option<u64>)
        requires
            self.wf(),
        ensures
            n == 0 ==> r is None,
            n > 0 ==> first_fit_from(self@, n as int, 0, r),
    {
        if n == 0 || n > self.free_count {
            proof {
                if n > 0 {
                    assert forall|t: int| 0 <= t implies !run_free(self@, t, n as int) by {
                        if run_free(self@, t, n as int) {
                            lemma_run_count(self@, t, n as int);
                        }
                    }
                }
            }
            return None;
        }
        let ghost v = self@;
        let ghost total = self.total_blocks as int;
        proof {
            self.lemma_words_cover();
            lemma_count_bound(self@);
        }
        let mut run_start: u64 = 0;
        let mut run_len: u64 = 0;
        let n_words = self.bits.len();
        let mut word_idx: usize = 0;
        while word_idx < n_words
            invariant
                self.wf(),
                v == self@,
                total == self.total_blocks,
                n_words == self.bits@.len(),
                n_words * 64 <= u64::MAX + 1,
                n_words * 64 >= total,
                0 < n <= total,
                0 <= word_idx <= n_words,
                word_idx * 64 <= total || word_idx == n_words,
                run_len < n,
                word_idx * 64 <= total ==> run_len == trail(v, word_idx * 64),
                word_idx * 64 <= total && run_len > 0 ==> run_start == word_idx * 64 - run_len,
                forall|t: int| 0 <= t && t + n <= word_idx * 64 && t + n <= total ==> !run_free(v, t, n as int),
            decreases n_words - word_idx,
        {
            let word = self.bits[word_idx];
            if word == 0xffff_ffff_ffff_ffffu64 {
                proof {
                    let base = word_idx * 64;
                    assert forall|t: int| 0 <= t && t + n <= (word_idx + 1) * 64 && t + n <= total implies !run_free(v, t, n as int) by {
                        if t + n > base {
                            let j = t + n - 1;
                            assert(j / 64 == word_idx);
                            lemma_full_word((j % 64) as u64);
                            assert(!v[j]);
                        }
                    }
                    if (word_idx + 1) * 64 <= total {
                        let k = (word_idx + 1) * 64;
                        lemma_full_word(63);
                        assert((k - 1) / 64 == word_idx);
                        assert(!v[k - 1]);
                        assert(trail(v, k) == 0);
                    }
                }
                run_len = 0;
                word_idx += 1;
                continue;
            }
            let mut bit: u64 = 0;
            while bit < BLOCKS_PER_WORD
                invariant
                    self.wf(),
                    v == self@,
                    total == self.total_blocks,
                    n_words == self.bits@.len(),
                    n_words * 64 <= u64::MAX + 1,
                    n_words * 64 >= total,
                    0 < n <= total,
                    0 <= word_idx < n_words,
                    word == self.bits@[word_idx as int],
                    0 <= bit <= 64,
                    word_idx * 64 + bit <= total,
                    run_len < n,
                    run_len == trail(v, word_idx * 64 + bit),
                    run_len > 0 ==> run_start == word_idx * 64 + bit - run_len,
                    forall|t: int| 0 <= t && t + n <= word_idx * 64 + bit ==> !run_free(v, t, n as int),
                decreases 64 - bit,
            {
                let block: u64 = (word_idx as u64) * BLOCKS_PER_WORD + bit;
                if block >= self.total_blocks {
                    return None;
                }
                proof {
                    lemma_trail_bound(v, block as int);
                    assert((block as int) / 64 == word_idx && (block as int) % 64 == bit) by (nonlinear_arith)
                        requires block == word_idx * 64 + bit, bit < 64;
                    lemma_bit01(word, bit);
                }
                if (word >> bit) & 1 == 0 {
                    if run_len == 0 {
                        run_start = block;
                    }
                    run_len = run_len + 1;
                    proof {
                        assert(v[block as int]);
                        assert(trail(v, block + 1) == trail(v, block as int) + 1);
                    }
                    if run_len >= n {
                        proof {
                            lemma_trail_run(v, block + 1, n as int);
                        }
                        return Some(run_start);
                    }
                    proof {
                        assert forall|t: int| 0 <= t && t + n <= block + 1 implies !run_free(v, t, n as int) by {
                            if t + n == block + 1 {
                                lemma_trail_run(v, block + 1, n as int);
                            }
                        }
                    }
                } else {
                    run_len = 0;
                    proof {
                        assert(!v[block as int]);
                        assert(trail(v, block + 1) == 0);
                        assert forall|t: int| 0 <= t && t + n <= block + 1 implies !run_free(v, t, n as int) by {
                            if t + n == block + 1 {
                                assert(t <= block < t + n);
                            }
                        }
                    }
                }
                bit += 1;
            }
            word_idx += 1;
        }
        proof {
            assert forall|t: int| 0 <= t implies !run_free(v, t, n as int) by {
                if run_free(v, t, n as int) {
                    assert(t + n <= total);
                }
            }
        }
        None
    }

    /// Search for `n` free blocks from `hint`, then from block 0
    /// (a request of 0 blocks is served as a request of 1).
    pub fn find_free_run_hint(&self, n: u64, hint: u64) -> (r: Option<u64>)
        requires
            self.wf(),
        ensures
            has_run_from(self@, at_least_one(n), hint as int) ==> first_fit_from(self@, at_least_one(n), hint as int, r),
            !has_run_from(self@, at_least_one(n), hint as int) && hint > 0 ==> first_fit_from(self@, at_least_one(n), 0, r),
            !has_run_from(self@, at_least_one(n), hint as int) && hint == 0 ==> r is None,
    {
        if let Some(r) = self.find_free_run_from(n, hint) {
            return Some(r);
        }
        if hint > 0 {
            self.find_free_run_from(n, 0)
        } else {
            None
        }
    }

    /// Block-by-block first-fit search starting at `start_block`.
    fn find_free_run_from(&self, n: u64, start_block: u64) -> (r: Option<u64>)
        requires
            self.wf(),
        ensures
            first_fit_from(self@, at_least_one(n), start_block as int, r),
            r is None <==> !has_run_from(self@, at_least_one(n), start_block as int),
    {
        let ghost v = self@;
        let ghost n1 = at_least_one(n);
        if start_block >= self.total_blocks {
            proof {
                assert forall|t: int| start_block <= t implies !run_free(v, t, n1) by {}
            }
            return None;
        }
        let mut run_start: u64 = 0;
        let mut run_len: u64 = 0;
        let mut block = start_block;
        while block < self.total_blocks
            invariant
                self.wf(),
                v == self@,
                start_block <= block <= self.total_blocks,
                n1 == at_least_one(n),
                run_len == trail_from(v, start_block as int, block as int),
                run_len <= block - start_block,
                run_len > 0 ==> run_start == block - run_len,
                run_len < n1,
                forall|t: int| start_block <= t && t + n1 <= block ==> !run_free(v, t, n1),
            decreases self.total_blocks - block,
        {
            if self.is_free(block) {
                proof {
                    assert(v[block as int]);
                    assert(v.len() == self.total_blocks);
                }
                if run_len == 0 {
                    run_start = block;
                }
                run_len = run_len + 1;
                proof {
                    assert(trail_from(v, start_block as int, block + 1) == run_len);
                    assert(n1 == (if n == 0 { 1int } else { n as int }));
                }
                if run_len >= n || run_len >= 1 && n == 0 {
                    proof {
                        lemma_trail_from_run(v, start_block as int, block + 1, n1);
                    }
                    return Some(run_start);
                }
                proof {
                    assert forall|t: int| start_block <= t && t + n1 <= block + 1 implies !run_free(v, t, n1) by {
                        if t + n1 == block + 1 {
                            lemma_trail_from_run(v, start_block as int, block + 1, n1);
                        }
                    }
                }
            } else {
                run_len = 0;
                proof {
                    assert(trail_from(v, start_block as int, block + 1) == 0);
                    assert forall|t: int| start_block <= t && t + n1 <= block + 1 implies !run_free(v, t, n1) by {
                        if t + n1 == block + 1 {
                            assert(t <= block < t + n1);
                        }
                    }
                }
            }
            block += 1;
        }
        proof {
            assert forall|t: int| start_block <= t implies !run_free(v, t, n1) by {
                if run_free(v, t, n1) {
                    assert(t + n1 <= v.len());
                }
            }
        }
        None
    }

    /// Marks `[start, start + n)` used (clamped to the map); returns the number of blocks visited.
    pub fn mark_used(&mut self, start: u64, n: u64) -> (r: u64)
        requires
            old(self).wf(),
        ensures
            final(self).wf(),
            final(self).total_spec() == old(self).total_spec(),
            ({
                let end = min_int(sat_add_u64(start, n), old(self).total_spec() as int);
                &&& final(self)@ == set_range(old(self)@, start as int, end, false)
                &&& r == (if start < end { end - start } else { 0 })
                &&& final(self).high_water_spec() == (if start < end && end - 1 > old(self).high_water_spec() { end - 1 } else { old(self).high_water_spec() as int })
            }),
    {
        let mut marked: u64 = 0;
        let end = min_u64(start.saturating_add(n), self.total_blocks);
        let ghost old_v = self@;
        let ghost old_hw = self.high_water;
        proof {
            self.lemma_words_cover();
        }
        let mut block = start;
        while block < end
            invariant
                self.wf(),
                self.total_blocks == old(self).total_spec(),
                self.bits@.len() == old(self).words().len(),
                end <= self.total_blocks,
                end == min_int(sat_add_u64(start, n), self.total_blocks as int),
                start <= block || end <= start,
                block <= end || end <= start,
                start < end ==> marked == block - start,
                start >= end ==> marked == 0 && block == start,
                self@ == set_range(old_v, start as int, if start < end { block as int } else { start as int }, false),
                self.high_water == (if start < block && block - 1 > old_hw { block - 1 } else { old_hw as int }),
                forall|i: int| 0 <= i < self.total_blocks ==> #[trigger] (i / 64) < self.bits@.len(),
            decreases end - block,
        {
            proof {
                self.lemma_view_index(block);
            }
            let word = (block / BLOCKS_PER_WORD) as usize;
            let bit = block % BLOCKS_PER_WORD;
            let ghost before = self@;
            let w = self.bits[word];
            if w & (1u64 << bit) == 0 {
                self.bits.set(word, w | (1u64 << bit));
                proof {
                    lemma_set_bit(w, bit, 0);
                    assert(before[block as int]);
                    assert forall|i: int| 0 <= i < self.total_blocks implies #[trigger] self@[i] == before.update(block as int, false)[i] by {
                        if i / 64 == word as int {
                            lemma_set_bit(w, bit, (i % 64) as u64);
                        }
                    }
                    assert(self@ =~= before.update(block as int, false));
                    lemma_count_update(before, block as int, false);
                }
                self.free_count = self.free_count - 1;
            } else {
                proof {
                    lemma_set_bit(w, bit, 0);
                    assert(!before[block as int]);
                    assert(self@ =~= before.update(block as int, false));
                }
            }
            marked = marked + 1;
            if block > self.high_water {
                self.high_water = block;
            }
            block += 1;
            proof {
                assert(self@ =~= set_range(old_v, start as int, block as int, false));
            }
        }
        proof {
            assert(self@ =~= set_range(old_v, start as int, end as int, false));
        }
        marked
    }

    /// Marks `[start, start + n)` free (clamped to the map); returns the number of blocks visited.
    pub fn mark_free(&mut self, start: u64, n: u64) -> (r: u64)
        requires
            old(self).wf(),
        ensures
            final(self).wf(),
            final(self).total_spec() == old(self).total_spec(),
            final(self).high_water_spec() == old(self).high_water_spec(),
            ({
                let end = min_int(sat_add_u64(start, n), old(self).total_spec() as int);
                &&& final(self)@ == set_range(old(self)@, start as int, end, true)
                &&& r == (if start < end { end - start } else { 0 })
            }),
    {
        let mut freed: u64 = 0;
        let end = min_u64(start.saturating_add(n), self.total_blocks);
        let ghost old_v = self@;
        proof {
            self.lemma_words_cover();
        }
        let mut block = start;
        while block < end
            invariant
                self.wf(),
                self.total_blocks == old(self).total_spec(),
                self.high_water == old(self).high_water_spec(),
                end <= self.total_blocks,
                end == min_int(sat_add_u64(start, n), self.total_blocks as int),
                start <= block || end <= start,
                block <= end || end <= start,
                start < end ==> freed == block - start,
                start >= end ==> freed == 0 && block == start,
                self@ == set_range(old_v, start as int, if start < end { block as int } else { start as int }, true),
                forall|i: int| 0 <= i < self.total_blocks ==> #[trigger] (i / 64) < self.bits@.len(),
            decreases end - block,
        {
            proof {
                self.lemma_view_index(block);
            }
            let word = (block / BLOCKS_PER_WORD) as usize;
            let bit = block % BLOCKS_PER_WORD;
            let ghost before = self@;
            let w = self.bits[word];
            if w & (1u64 << bit) != 0 {
                self.bits.set(word, w & !(1u64 << bit));
                proof {
                    lemma_clear_bit(w, bit, 0);
                    assert(!before[block as int]);
                    assert forall|i: int| 0 <= i < self.total_blocks implies #[trigger] self@[i] == before.update(block as int, true)[i] by {
                        if i / 64 == word as int {
                            lemma_clear_bit(w, bit, (i % 64) as u64);
                        }
                    }
                    assert(self@ =~= before.update(block as int, true));
                    lemma_count_update(before, block as int, true);
                    lemma_count_bound(self@);
                }
                self.free_count = self.free_count + 1;
            } else {
                proof {
                    lemma_clear_bit(w, bit, 0);
                    assert(before[block as int]);
                    assert(self@ =~= before.update(block as int, true));
                }
            }
            freed = freed + 1;
            block += 1;
            proof {
                assert(self@ =~= set_range(old_v, start as int, block as int, true));
            }
        }
        proof {
            assert(self@ =~= set_range(old_v, start as int, end as int, true));
        }
        freed
    }

    /// Marks one block used.
    pub fn mark_one_used(&mut self, block: u64)
        requires
            old(self).wf(),
        ensures
            final(self).wf(),
            final(self).total_spec() == old(self).total_spec(),
            final(self)@ == set_range(old(self)@, block as int, min_int(block + 1, old(self).total_spec() as int), false),
    {
        self.mark_used(block, 1);
    }

    /// Marks one block free.
    pub fn mark_one_free(&mut self, block: u64)
        requires
            old(self).wf(),
        ensures
            final(self).wf(),
            final(self).total_spec() == old(self).total_spec(),
            final(self)@ == set_range(old(self)@, block as int, min_int(block + 1, old(self).total_spec() as int), true),
    {
        self.mark_free(block, 1);
    }

    /// The maximal free runs, in block order.
    pub fn free_runs(&self) -> (r: Result<Vec<FreeRun>, ExofsError>)
        requires
            self.wf(),
        ensures
            r matches Ok(runs) && runs@ == free_runs_spec(self@),
    {
        let ghost v = self@;
        let mut runs: Vec<FreeRun> = Vec::new();
        let mut run_start: u64 = 0;
        let mut in_run = false;
        let mut block: u64 = 0;
        while block < self.total_blocks
            invariant
                self.wf(),
                v == self@,
                block <= self.total_blocks,
                in_run == (block > 0 && v[block - 1]),
                in_run ==> run_start + trail(v, block as int) == block,
                in_run ==> runs_upto(v, block as int) == runs@.push(FreeRun { start: run_start, len: (block - run_start) as u64 }),
                !in_run ==> runs_upto(v, block as int) == runs@,
            decreases self.total_blocks - block,
        {
            let ghost prev = runs_upto(v, block as int);
            if self.is_free(block) {
                proof {
                    assert(v[block as int]);
                    assert(v.len() == self.total_blocks);
                }
                if !in_run {
                    run_start = block;
                    in_run = true;
                    proof {
                        if block > 0 {
                            assert(!v[block - 1]);
                        }
                        assert(trail(v, block as int) == 0);
                        assert(trail(v, block + 1) == trail(v, block as int) + 1);
                        assert(runs_upto(v, block + 1) == prev.push(FreeRun { start: block, len: 1 }));
                    }
                } else {
                    proof {
                        let last = FreeRun { start: run_start, len: (block - run_start) as u64 };
                        assert(prev.last() == last);
                        assert(prev.drop_last() == runs@);
                        assert(runs_upto(v, block + 1) == prev.update(prev.len() - 1, FreeRun { start: run_start, len: (block + 1 - run_start) as u64 }));
                        assert(runs_upto(v, block + 1) =~= runs@.push(FreeRun { start: run_start, len: (block + 1 - run_start) as u64 }));
                    }
                }
            } else if in_run {
                let len = block - run_start;
                runs.push(FreeRun { start: run_start, len });
                in_run = false;
            }
            block += 1;
        }
        if in_run {
            runs.push(FreeRun { start: run_start, len: self.total_blocks - run_start });
        }
        Ok(runs)
    }

    /// Number of maximal free runs.
    pub fn free_run_count(&self) -> (r: u64)
        requires
            self.wf(),
        ensures
            r == run_count_upto(self@, self@.len() as int),
    {
        let ghost v = self@;
        let mut count: u64 = 0;
        let mut in_run = false;
        let mut block: u64 = 0;
        while block < self.total_blocks
            invariant
                self.wf(),
                v == self@,
                block <= self.total_blocks,
                in_run == (block > 0 && v[block - 1]),
                count == run_count_upto(v, block as int),
                count <= block,
            decreases self.total_blocks - block,
        {
            if self.is_free(block) {
                if !in_run {
                    count += 1;
                    in_run = true;
                }
            } else {
                in_run = false;
            }
            block += 1;
        }
        count
    }

    /// Length of the longest free run.
    pub fn largest_free_run(&self) -> (r: u64)
        requires
            self.wf(),
        ensures
            r == largest_upto(self@, self@.len() as int),
    {
        let ghost v = self@;
        let mut max_len: u64 = 0;
        let mut run_len: u64 = 0;
        let mut block: u64 = 0;
        while block < self.total_blocks
            invariant
                self.wf(),
                v == self@,
                block <= self.total_blocks,
                run_len == trail(v, block as int),
                max_len == largest_upto(v, block as int),
            decreases self.total_blocks - block,
        {
            proof {
                lemma_trail_bound(v, block as int);
            }
            if self.is_free(block) {
                run_len += 1;
                if run_len > max_len {
                    max_len = run_len;
                }
            } else {
                run_len = 0;
            }
            block += 1;
        }
        max_len
    }

    /// Fragmentation in percent: `(runs - 1) * 100 / free_blocks`, capped at 100.
    pub fn fragmentation_pct(&self) -> (r: u8)
        requires
            self.wf(),
        ensures
            r == frag_spec(run_count_upto(self@, self@.len() as int) as int, count_free(self@) as int),
    {
        if self.free_count == 0 {
            return 0;
        }
        let runs = self.free_run_count();
        if runs <= 1 {
            return 0;
        }
        let q: u128 = ((runs - 1) as u128 * 100) / (self.free_count as u128);
        if q > 100 { 100 } else { q as u8 }
    }

    /// High-water mark.
    pub fn high_water(&self) -> (r: u64)
        ensures
            r == self.high_water_spec(),
    {
        self.high_water
    }

    /// The bitmap words.
    pub fn bitmap_words(&self) -> (r: &[u64])
        ensures
            r@ == self.words(),
    {
        self.bits.as_slice()
    }
}

/// Fragmentation formula.
pub open spec fn frag_spec(runs: int, free: int) -> int {
    if free == 0 || runs <= 1 {
        0
    } else if (runs - 1) * 100 / free > 100 {
        100
    } else {
        (runs - 1) * 100 / free
    }
}

/// Length of the run of free blocks ending before `k`, counted from `from` only.
pub open spec fn trail_from(v: Seq<bool>, from: int, k: int) -> nat
    decreases k - from,
{
    if k <= from || k > v.len() || !v[k - 1] {
        0
    } else {
        trail_from(v, from, k - 1) + 1
    }
}

/// `n`, or 1 when `n` is 0.
pub open spec fn at_least_one(n: u64) -> int {
    if n == 0 { 1 } else { n as int }
}

/// Some run of `n` free blocks starts at or after `from`.
pub open spec fn has_run_from(v: Seq<bool>, n: int, from: int) -> bool {
    exists|t: int| from <= t && #[trigger] run_free(v, t, n)
}

proof fn lemma_trail_from_run(v: Seq<bool>, from: int, k: int, n: int)
    requires
        0 <= from,
        from + n <= k <= v.len(),
        0 <= n,
    ensures
        (trail_from(v, from, k) >= n) == run_free(v, k - n, n),
    decreases n,
{
    if n > 0 {
        lemma_trail_from_run(v, from, k - 1, n - 1);
        if v[k - 1] {
            if run_free(v, k - 1 - (n - 1), n - 1) {
                assert forall|i: int| k - n <= i < k implies #[trigger] v[i] by {
                    if i < k - 1 {
                        assert(k - 1 - (n - 1) <= i < k - 1 - (n - 1) + (n - 1));
                    }
                }
            }
            if run_free(v, k - n, n) {
                assert forall|i: int| k - 1 - (n - 1) <= i < k - 1 - (n - 1) + (n - 1) implies #[trigger] v[i] by {
                    assert(k - n <= i < k - n + n);
                }
            }
        } else {
            if run_free(v, k - n, n) {
                assert(k - n <= k - 1 < k - n + n);
            }
        }
    }
}

/// `a + b` clamped to `u64::MAX`.
pub open spec fn sat_add_u64(a: u64, b: u64) -> int {
    if a + b > u64::MAX { u64::MAX as int } else { a + b }
}

/// Smaller of two integers.
pub open spec fn min_int(a: int, b: int) -> int {
    if a < b { a } else { b }
}

fn min_u64(a: u64, b: u64) -> (r: u64)
    ensures
        r == min_int(a as int, b as int),
{
    if a < b { a } else { b }
}

/// Number of words for `n` blocks.
fn words_for_blocks(n: u64) -> (r: u64)
    requires
        n <= MAX_MAP_BLOCKS,
    ensures
        r == words_spec(n),
{
    n.saturating_add(BLOCKS_PER_WORD - 1) / BLOCKS_PER_WORD
}

} // verus!
