use vstd::prelude::*;
use crate::bitread::pow2;
use crate::entropy::{available_frac_of, logp_step, RangeDecoder, RangeState};
use crate::tables::{
    freq_range, freq_range_seq, static_alloc, static_alloc_seq, static_caps, static_caps_seq, MAX_BANDS,
};

verus! {

/// Number of rows of the static allocation table.
pub const ALLOC_ROWS: usize = 11;

/// What the allocation search works from, as mathematical values.
pub struct AllocModel {
    pub lm: nat,
    pub stereo: nat,
    pub start: int,
    pub end: int,
    pub caps: Seq<int>,
    pub thresh: Seq<int>,
    pub trim: Seq<int>,
    pub boost: Seq<int>,
}

pub open spec fn ints(v: Seq<i32>) -> Seq<int> {
    v.map_values(|x: i32| x as int)
}

pub open spec fn ints64(v: Seq<i64>) -> Seq<int> {
    v.map_values(|x: i64| x as int)
}

/// Eighths of a bit that row `row` of the static table gives band `i`; the row past the last
/// stands for the band's cap.
pub open spec fn raw_bits(m: AllocModel, row: int, i: int) -> int {
    if row >= ALLOC_ROWS {
        m.caps[i]
    } else {
        (freq_range_seq()[i] as int) * (static_alloc_seq()[row * 21 + i] as int) * (pow2(
            m.lm + m.stereo,
        ) as int) / 4
    }
}

/// `raw_bits` moved by the trim offset, never below zero; a band the row leaves empty stays so.
pub open spec fn trimmed_bits(m: AllocModel, row: int, i: int) -> int {
    let b = raw_bits(m, row, i);
    if b > 0 {
        if b + m.trim[i] > 0 {
            b + m.trim[i]
        } else {
            0
        }
    } else {
        b
    }
}

/// Per-band bits that row `row` asks for, dynamic boost included.
pub open spec fn row_bits(m: AllocModel, row: int) -> Seq<int> {
    Seq::new(MAX_BANDS as nat, |i: int| trimmed_bits(m, row, i) + m.boost[i])
}

/// Bits at the lower row of the interpolation; the boost counts from row 1 on.
pub open spec fn lower_bits(m: AllocModel, row: int, i: int) -> int {
    trimmed_bits(m, row, i) + if row != 0 {
        m.boost[i]
    } else {
        0
    }
}

/// What the next row adds to `lower_bits`, never negative.
pub open spec fn step_bits(m: AllocModel, row: int, i: int) -> int {
    let d = trimmed_bits(m, row + 1, i) + m.boost[i] - lower_bits(m, row, i);
    if d > 0 {
        d
    } else {
        0
    }
}

/// Per-band bits at fraction `frac / 64` of the way from row `row` to the next.
pub open spec fn interp_bits(m: AllocModel, row: int, frac: int) -> Seq<int> {
    Seq::new(
        MAX_BANDS as nat,
        |i: int| lower_bits(m, row, i) + (frac * step_bits(m, row, i)) / 64,
    )
}

/// Some band in `[i, end)` reaches its threshold.
pub open spec fn any_above(bits: Seq<int>, thresh: Seq<int>, i: int, end: int) -> bool
    decreases end - i,
{
    if i >= end {
        false
    } else {
        bits[i] >= thresh[i] || any_above(bits, thresh, i + 1, end)
    }
}

/// What band `i` gets: once a band at or above it reaches its threshold, its bits up to its
/// cap; before that, only the minimum channel-coded cost, if it can pay that.
pub open spec fn band_alloc(m: AllocModel, bits: Seq<int>, i: int) -> int {
    let c8: int = 8 * (m.stereo + 1) as int;
    if any_above(bits, m.thresh, i, m.end) {
        if bits[i] < m.caps[i] {
            bits[i]
        } else {
            m.caps[i]
        }
    } else if bits[i] >= c8 {
        c8
    } else {
        0
    }
}

/// Total that bands `[i, end)` get.
pub open spec fn alloc_sum(m: AllocModel, bits: Seq<int>, i: int) -> int
    decreases m.end - i,
{
    if i >= m.end {
        0
    } else {
        band_alloc(m, bits, i) + alloc_sum(m, bits, i + 1)
    }
}

/// Total over the coded bands.
pub open spec fn alloc_total(m: AllocModel, bits: Seq<int>) -> int {
    alloc_sum(m, bits, m.start)
}

/// The inputs the search works on, and the limits that keep its sums in range.
pub open spec fn model_wf(m: AllocModel) -> bool {
    &&& m.lm <= 3
    &&& m.stereo <= 1
    &&& 0 <= m.start <= m.end <= MAX_BANDS
    &&& m.caps.len() == MAX_BANDS
    &&& m.thresh.len() == MAX_BANDS
    &&& m.trim.len() == MAX_BANDS
    &&& m.boost.len() == MAX_BANDS
    &&& forall|i: int|
        0 <= i < MAX_BANDS ==> 8 * (m.stereo + 1) <= #[trigger] m.caps[i] <= 0x8_0000
    &&& forall|i: int| 0 <= i < MAX_BANDS ==> 8 <= #[trigger] m.thresh[i] <= 0x10000
    &&& forall|i: int| 0 <= i < MAX_BANDS ==> -0x10_0000 <= #[trigger] m.trim[i] <= 0x10_0000
    &&& forall|i: int| 0 <= i < MAX_BANDS ==> 0 <= #[trigger] m.boost[i] <= 0x10_0000
}

/// Bands that agree on `[i, end)` are allocated alike there.
proof fn lemma_alloc_agree(m: AllocModel, a: Seq<int>, b: Seq<int>, i: int)
    requires
        forall|j: int| i <= j < m.end ==> a[j] == b[j],
    ensures
        any_above(a, m.thresh, i, m.end) == any_above(b, m.thresh, i, m.end),
        alloc_sum(m, a, i) == alloc_sum(m, b, i),
    decreases m.end - i,
{
    if i < m.end {
        lemma_alloc_agree(m, a, b, i + 1);
    }
}

/// Each band's share is at most the total of the bands from it up.
proof fn lemma_sum_ge_term(m: AllocModel, bits: Seq<int>, i: int, j: int)
    requires
        model_wf(m),
        forall|k: int| 0 <= k < MAX_BANDS ==> 0 <= #[trigger] bits[k],
        m.start <= i <= j < m.end,
    ensures
        alloc_sum(m, bits, i) >= band_alloc(m, bits, j) >= 0,
    decreases j - i,
{
    lemma_sum_nonneg(m, bits, i + 1);
    if i < j {
        lemma_sum_ge_term(m, bits, i + 1, j);
    }
    assert(band_alloc(m, bits, i) >= 0);
}

proof fn lemma_sum_nonneg(m: AllocModel, bits: Seq<int>, i: int)
    requires
        model_wf(m),
        forall|k: int| 0 <= k < MAX_BANDS ==> 0 <= #[trigger] bits[k],
        m.start <= i,
    ensures
        alloc_sum(m, bits, i) >= 0,
    decreases m.end - i,
{
    if i < m.end {
        lemma_sum_nonneg(m, bits, i + 1);
    }
}

/// Some band at or above `i` reaches its threshold: that band gets at least eight eighths.
proof fn lemma_above_share(m: AllocModel, bits: Seq<int>, i: int) -> (j: int)
    requires
        model_wf(m),
        m.start <= i,
        any_above(bits, m.thresh, i, m.end),
    ensures
        i <= j < m.end,
        band_alloc(m, bits, j) >= 8,
    decreases m.end - i,
{
    if bits[i] >= m.thresh[i] {
        i
    } else {
        lemma_above_share(m, bits, i + 1)
    }
}

/// An allocation that gives the bands less than one bit in all gives each band nothing: a band
/// is either coded at its minimum cost of at least one bit, or some band reached its threshold.
pub proof fn lemma_small_total_allocates_nothing(m: AllocModel, bits: Seq<int>)
    requires
        model_wf(m),
        forall|k: int| 0 <= k < MAX_BANDS ==> 0 <= #[trigger] bits[k],
        alloc_total(m, bits) < 8,
    ensures
        forall|i: int| m.start <= i < m.end ==> #[trigger] band_alloc(m, bits, i) == 0,
{
    assert forall|i: int| m.start <= i < m.end implies #[trigger] band_alloc(m, bits, i) == 0 by {
        if any_above(bits, m.thresh, i, m.end) {
            let j = lemma_above_share(m, bits, i);
            lemma_sum_ge_term(m, bits, m.start, j);
        } else {
            lemma_sum_ge_term(m, bits, m.start, i);
        }
    }
}

/// Bands that ask for nothing get nothing.
proof fn lemma_zero_bits(m: AllocModel, bits: Seq<int>, i: int)
    requires
        model_wf(m),
        m.start <= i,
        forall|k: int| 0 <= k < MAX_BANDS ==> #[trigger] bits[k] == 0,
    ensures
        alloc_sum(m, bits, i) == 0,
        !any_above(bits, m.thresh, i, m.end),
    decreases m.end - i,
{
    if i < m.end {
        lemma_zero_bits(m, bits, i + 1);
    }
}

proof fn lemma_first_row_empty()
    ensures
        forall|i: int| 0 <= i < MAX_BANDS ==> #[trigger] static_alloc_seq()[i] == 0,
{
    assert forall|i: int| 0 <= i < MAX_BANDS implies #[trigger] static_alloc_seq()[i] == 0 by {
        if i == 0 {
            assert(static_alloc_seq()[0] == 0);
        } else if i == 1 {
            assert(static_alloc_seq()[1] == 0);
        } else if i == 2 {
            assert(static_alloc_seq()[2] == 0);
        } else if i == 3 {
            assert(static_alloc_seq()[3] == 0);
        } else if i == 4 {
            assert(static_alloc_seq()[4] == 0);
        } else if i == 5 {
            assert(static_alloc_seq()[5] == 0);
        } else if i == 6 {
            assert(static_alloc_seq()[6] == 0);
        } else if i == 7 {
            assert(static_alloc_seq()[7] == 0);
        } else if i == 8 {
            assert(static_alloc_seq()[8] == 0);
        } else if i == 9 {
            assert(static_alloc_seq()[9] == 0);
        } else if i == 10 {
            assert(static_alloc_seq()[10] == 0);
        } else if i == 11 {
            assert(static_alloc_seq()[11] == 0);
        } else if i == 12 {
            assert(static_alloc_seq()[12] == 0);
        } else if i == 13 {
            assert(static_alloc_seq()[13] == 0);
        } else if i == 14 {
            assert(static_alloc_seq()[14] == 0);
        } else if i == 15 {
            assert(static_alloc_seq()[15] == 0);
        } else if i == 16 {
            assert(static_alloc_seq()[16] == 0);
        } else if i == 17 {
            assert(static_alloc_seq()[17] == 0);
        } else if i == 18 {
            assert(static_alloc_seq()[18] == 0);
        } else if i == 19 {
            assert(static_alloc_seq()[19] == 0);
        } else if i == 20 {
            assert(static_alloc_seq()[20] == 0);
        }
    }
}

proof fn lemma_pow2_small(k: nat)
    requires
        k <= 4,
    ensures
        1 <= pow2(k) <= 16,
{
    reveal_with_fuel(pow2, 5);
}

fn scale_factor(k: usize) -> (r: i64)
    requires
        k <= 4,
    ensures
        r == pow2(k as nat),
{
    reveal_with_fuel(pow2, 5);
    if k == 0 {
        1
    } else if k == 1 {
        2
    } else if k == 2 {
        4
    } else if k == 3 {
        8
    } else {
        16
    }
}

proof fn lemma_raw_bounds(m: AllocModel, row: int, i: int)
    requires
        model_wf(m),
        0 <= row <= ALLOC_ROWS,
        0 <= i < MAX_BANDS,
    ensures
        0 <= raw_bits(m, row, i) <= 0x8_0000,
        0 <= trimmed_bits(m, row, i) <= 0x20_0000,
{
    if row < ALLOC_ROWS {
        lemma_pow2_small(m.lm + m.stereo);
        let n = freq_range_seq()[i] as int;
        let a = static_alloc_seq()[row * 21 + i] as int;
        let p = pow2(m.lm + m.stereo) as int;
        assert(0 <= n <= 255 && 0 <= a <= 255);
        assert(0 <= n * a * p <= 255 * 255 * 16) by (nonlinear_arith)
            requires
                0 <= n <= 255,
                0 <= a <= 255,
                1 <= p <= 16,
        ;
    }
}

/// Exec counterpart of `trimmed_bits`.
fn trimmed(
    lm: usize,
    stereo: usize,
    caps: &Vec<i32>,
    trim: &Vec<i32>,
    row: usize,
    i: usize,
    Ghost(m): Ghost<AllocModel>,
) -> (r: i64)
    requires
        model_wf(m),
        m.lm == lm,
        m.stereo == stereo,
        m.caps == ints(caps@),
        m.trim == ints(trim@),
        row <= ALLOC_ROWS,
        i < MAX_BANDS,
    ensures
        r == trimmed_bits(m, row as int, i as int),
        0 <= r <= 0x20_0000,
{
    proof {
        lemma_raw_bounds(m, row as int, i as int);
        assert(caps@.len() == MAX_BANDS);
    }
    let b: i64 = if row >= ALLOC_ROWS {
        caps[i] as i64
    } else {
        let n = freq_range(i) as i64;
        let a = static_alloc(row, i) as i64;
        let p = scale_factor(lm + stereo);
        proof {
            lemma_pow2_small((lm + stereo) as nat);
            assert(0 <= n * a <= 255 * 255) by (nonlinear_arith)
                requires
                    0 <= n <= 255,
                    0 <= a <= 255,
            ;
            assert(0 <= n * a * p <= 255 * 255 * 16) by (nonlinear_arith)
                requires
                    0 <= n * a <= 255 * 255,
                    1 <= p <= 16,
            ;
        }
        n * a * p / 4
    };
    if b > 0 {
        let t = b + trim[i] as i64;
        if t > 0 {
            t
        } else {
            0
        }
    } else {
        b
    }
}

/// Sums what the bands get for the given per-band bits, from the top band down.
fn sum_alloc(bits: &Vec<i64>, caps: &Vec<i32>, thresh: &Vec<i32>, stereo: usize, start: usize, end: usize, Ghost(m): Ghost<AllocModel>) -> (r: i64)
    requires
        model_wf(m),
        m.stereo == stereo,
        m.start == start,
        m.end == end,
        m.caps == ints(caps@),
        m.thresh == ints(thresh@),
        bits@.len() == MAX_BANDS,
        forall|i: int| 0 <= i < MAX_BANDS ==> 0 <= #[trigger] bits@[i] <= 0x100_0000,
    ensures
        r == alloc_total(m, ints64(bits@)),
        0 <= r <= 0x8_0000 * MAX_BANDS,
{
    let ghost b = ints64(bits@);
    let c8: i64 = 8 * (stereo as i64 + 1);
    let mut total: i64 = 0;
    let mut done = false;
    let mut j: usize = end;
    while j > start
        invariant
            model_wf(m),
            m.stereo == stereo,
            m.start == start,
            m.end == end,
            m.caps == ints(caps@),
            m.thresh == ints(thresh@),
            b == ints64(bits@),
            bits@.len() == MAX_BANDS,
            forall|i: int| 0 <= i < MAX_BANDS ==> 0 <= #[trigger] bits@[i] <= 0x100_0000,
            c8 == 8 * (m.stereo + 1),
            start <= j <= end,
            done == any_above(b, m.thresh, j as int, m.end),
            total == alloc_sum(m, b, j as int),
            0 <= total <= 0x8_0000 * (end - j),
        decreases j,
    {
        j = j - 1;
        proof {
            assert(m.caps[j as int] == caps@[j as int] as int);
            assert(m.thresh[j as int] == thresh@[j as int] as int);
            assert(b[j as int] == bits@[j as int] as int);
        }
        let v = bits[j];
        if v >= thresh[j] as i64 || done {
            done = true;
            let cap = caps[j] as i64;
            total = total + if v < cap {
                v
            } else {
                cap
            };
        } else if v >= c8 {
            total = total + c8;
        }
    }
    total
}

/// The model of the search's inputs.
pub open spec fn alloc_model(
    lm: usize,
    stereo: usize,
    start: usize,
    end: usize,
    caps: Seq<i32>,
    thresh: Seq<i32>,
    trim: Seq<i32>,
    boost: Seq<i32>,
) -> AllocModel {
    AllocModel {
        lm: lm as nat,
        stereo: stereo as nat,
        start: start as int,
        end: end as int,
        caps: ints(caps),
        thresh: ints(thresh),
        trim: ints(trim),
        boost: ints(boost),
    }
}

/// Per-band bits of row `row`, as a vector.
fn row_vec(
    lm: usize,
    stereo: usize,
    caps: &Vec<i32>,
    trim: &Vec<i32>,
    boost: &Vec<i32>,
    row: usize,
    Ghost(m): Ghost<AllocModel>,
) -> (r: Vec<i64>)
    requires
        model_wf(m),
        m.lm == lm,
        m.stereo == stereo,
        m.caps == ints(caps@),
        m.trim == ints(trim@),
        m.boost == ints(boost@),
        row <= ALLOC_ROWS,
    ensures
        ints64(r@) == row_bits(m, row as int),
        r@.len() == MAX_BANDS,
        forall|i: int| 0 <= i < MAX_BANDS ==> 0 <= #[trigger] r@[i] <= 0x100_0000,
{
    let mut v: Vec<i64> = Vec::new();
    let mut i: usize = 0;
    while i < MAX_BANDS
        invariant
            model_wf(m),
            m.lm == lm,
            m.stereo == stereo,
            m.caps == ints(caps@),
            m.trim == ints(trim@),
            m.boost == ints(boost@),
            row <= ALLOC_ROWS,
            i <= MAX_BANDS,
            v@.len() == i,
            forall|j: int| 0 <= j < i ==> #[trigger] v@[j] == trimmed_bits(m, row as int, j) + m.boost[j],
            forall|j: int| 0 <= j < i ==> 0 <= #[trigger] v@[j] <= 0x100_0000,
        decreases MAX_BANDS - i,
    {
        proof {
            assert(boost@.len() == MAX_BANDS);
            assert(m.boost[i as int] == boost@[i as int] as int);
        }
        let t = trimmed(lm, stereo, caps, trim, row, i, Ghost(m));
        v.push(t + boost[i] as i64);
        i = i + 1;
    }
    assert(ints64(v@) =~= row_bits(m, row as int));
    v
}

/// Per-band bits at fraction `frac / 64` between the rows that `bits1` and `bits2` describe.
fn interp_vec(bits1: &Vec<i64>, bits2: &Vec<i64>, frac: usize, row: Ghost<int>, Ghost(m): Ghost<AllocModel>) -> (r: Vec<i64>)
    requires
        model_wf(m),
        frac <= 64,
        bits1@.len() == MAX_BANDS,
        bits2@.len() == MAX_BANDS,
        forall|i: int| 0 <= i < MAX_BANDS ==> #[trigger] bits1@[i] == lower_bits(m, row@, i),
        forall|i: int| 0 <= i < MAX_BANDS ==> #[trigger] bits2@[i] == step_bits(m, row@, i),
        forall|i: int| 0 <= i < MAX_BANDS ==> 0 <= #[trigger] bits1@[i] <= 0x40_0000,
        forall|i: int| 0 <= i < MAX_BANDS ==> 0 <= #[trigger] bits2@[i] <= 0x40_0000,
    ensures
        ints64(r@) == interp_bits(m, row@, frac as int),
        r@.len() == MAX_BANDS,
        forall|i: int| 0 <= i < MAX_BANDS ==> 0 <= #[trigger] r@[i] <= 0x100_0000,
{
    let mut v: Vec<i64> = Vec::new();
    let mut i: usize = 0;
    while i < MAX_BANDS
        invariant
            frac <= 64,
            bits1@.len() == MAX_BANDS,
            bits2@.len() == MAX_BANDS,
            forall|i: int| 0 <= i < MAX_BANDS ==> #[trigger] bits1@[i] == lower_bits(m, row@, i),
            forall|i: int| 0 <= i < MAX_BANDS ==> #[trigger] bits2@[i] == step_bits(m, row@, i),
            forall|i: int| 0 <= i < MAX_BANDS ==> 0 <= #[trigger] bits1@[i] <= 0x40_0000,
            forall|i: int| 0 <= i < MAX_BANDS ==> 0 <= #[trigger] bits2@[i] <= 0x40_0000,
            i <= MAX_BANDS,
            v@.len() == i,
            forall|j: int| 0 <= j < i ==> #[trigger] v@[j] == lower_bits(m, row@, j) + (frac * step_bits(m, row@, j)) / 64,
            forall|j: int| 0 <= j < i ==> 0 <= #[trigger] v@[j] <= 0x100_0000,
        decreases MAX_BANDS - i,
    {
        let b1 = bits1[i];
        let b2 = bits2[i];
        proof {
            assert(0 <= frac * b2 <= 64 * 0x40_0000) by (nonlinear_arith)
                requires
                    0 <= frac <= 64,
                    0 <= b2 <= 0x40_0000,
            ;
            assert((frac * b2) / 64 <= 0x40_0000) by (nonlinear_arith)
                requires
                    0 <= frac * b2 <= 64 * 0x40_0000,
            ;
        }
        v.push(b1 + (frac as i64 * b2) / 64);
        i = i + 1;
    }
    assert(ints64(v@) =~= interp_bits(m, row@, frac as int));
    v
}

/// Spends `available` eighths of a bit over bands `[start, end)`: a bisection over the rows of
/// the static table, then a 64-step bisection between the two rows it settles on. Gives the
/// per-band allocation, the lower row and the fraction towards the next row.
pub fn bisect_allocation(
    lm: usize,
    stereo: usize,
    start: usize,
    end: usize,
    caps: &Vec<i32>,
    thresh: &Vec<i32>,
    trim: &Vec<i32>,
    boost: &Vec<i32>,
    available: i64,
) -> (r: (Vec<i32>, usize, usize))
    requires
        model_wf(alloc_model(lm, stereo, start, end, caps@, thresh@, trim@, boost@)),
    ensures
        ({
            let m = alloc_model(lm, stereo, start, end, caps@, thresh@, trim@, boost@);
            let (pulses, row, frac) = r;
            let bits = interp_bits(m, row as int, frac as int);
            &&& row < ALLOC_ROWS
            &&& frac < 64
            &&& (row == 0 || alloc_total(m, row_bits(m, row as int)) <= available)
            &&& (row == ALLOC_ROWS - 1 || alloc_total(m, row_bits(m, row + 1)) > available)
            &&& (frac == 0 || alloc_total(m, bits) <= available)
            &&& (frac == 63 || alloc_total(m, interp_bits(m, row as int, frac + 1)) > available)
            &&& pulses@.len() == MAX_BANDS
            &&& forall|i: int|
                start <= i < end ==> #[trigger] pulses@[i] as int == band_alloc(m, bits, i)
            &&& forall|i: int|
                0 <= i < MAX_BANDS && !(start <= i < end) ==> #[trigger] pulses@[i] == 0
            &&& forall|i: int| 0 <= i < MAX_BANDS ==> 0 <= #[trigger] pulses@[i] <= caps@[i]
            &&& alloc_total(m, bits) <= if available > 0 {
                available as int
            } else {
                0
            }
            &&& forall|i: int| 0 <= i < MAX_BANDS ==> 0 <= #[trigger] bits[i]
        }),
{
    let ghost m = alloc_model(lm, stereo, start, end, caps@, thresh@, trim@, boost@);
    let mut low: usize = 1;
    let mut high: usize = ALLOC_ROWS - 1;
    while low <= high
        invariant
            model_wf(m),
            m == alloc_model(lm, stereo, start, end, caps@, thresh@, trim@, boost@),
            1 <= low <= ALLOC_ROWS,
            high <= ALLOC_ROWS - 1,
            low <= high + 1,
            low == 1 || alloc_total(m, row_bits(m, low - 1)) <= available,
            high == ALLOC_ROWS - 1 || alloc_total(m, row_bits(m, high + 1)) > available,
        decreases high + 1 - low,
    {
        let center = (low + high) / 2;
        let v = row_vec(lm, stereo, caps, trim, boost, center, Ghost(m));
        let total = sum_alloc(&v, caps, thresh, stereo, start, end, Ghost(m));
        if total > available {
            high = center - 1;
        } else {
            low = center + 1;
        }
    }
    let row = low - 1;
    let mut bits1: Vec<i64> = Vec::new();
    let mut bits2: Vec<i64> = Vec::new();
    let mut i: usize = 0;
    while i < MAX_BANDS
        invariant
            model_wf(m),
            m == alloc_model(lm, stereo, start, end, caps@, thresh@, trim@, boost@),
            row < ALLOC_ROWS,
            i <= MAX_BANDS,
            bits1@.len() == i,
            bits2@.len() == i,
            forall|j: int| 0 <= j < i ==> #[trigger] bits1@[j] == lower_bits(m, row as int, j),
            forall|j: int| 0 <= j < i ==> #[trigger] bits2@[j] == step_bits(m, row as int, j),
            forall|j: int| 0 <= j < i ==> 0 <= #[trigger] bits1@[j] <= 0x40_0000,
            forall|j: int| 0 <= j < i ==> 0 <= #[trigger] bits2@[j] <= 0x40_0000,
        decreases MAX_BANDS - i,
    {
        proof {
            assert(m.boost[i as int] == boost@[i as int] as int);
        }
        let t1 = trimmed(lm, stereo, caps, trim, row, i, Ghost(m));
        let t2 = trimmed(lm, stereo, caps, trim, row + 1, i, Ghost(m));
        let b1 = if row != 0 {
            t1 + boost[i] as i64
        } else {
            t1
        };
        let d = t2 + boost[i] as i64 - b1;
        bits1.push(b1);
        bits2.push(
            if d > 0 {
                d
            } else {
                0
            },
        );
        i = i + 1;
    }
    let mut lo: usize = 0;
    let mut hi: usize = 64;
    while hi - lo > 1
        invariant
            model_wf(m),
            m == alloc_model(lm, stereo, start, end, caps@, thresh@, trim@, boost@),
            row < ALLOC_ROWS,
            bits1@.len() == MAX_BANDS,
            bits2@.len() == MAX_BANDS,
            forall|j: int| 0 <= j < MAX_BANDS ==> #[trigger] bits1@[j] == lower_bits(m, row as int, j),
            forall|j: int| 0 <= j < MAX_BANDS ==> #[trigger] bits2@[j] == step_bits(m, row as int, j),
            forall|j: int| 0 <= j < MAX_BANDS ==> 0 <= #[trigger] bits1@[j] <= 0x40_0000,
            forall|j: int| 0 <= j < MAX_BANDS ==> 0 <= #[trigger] bits2@[j] <= 0x40_0000,
            lo < hi <= 64,
            lo == 0 || alloc_total(m, interp_bits(m, row as int, lo as int)) <= available,
            hi == 64 || alloc_total(m, interp_bits(m, row as int, hi as int)) > available,
        decreases hi - lo,
    {
        let mid = (lo + hi) / 2;
        let v = interp_vec(&bits1, &bits2, mid, Ghost(row as int), Ghost(m));
        let total = sum_alloc(&v, caps, thresh, stereo, start, end, Ghost(m));
        if total > available {
            hi = mid;
        } else {
            lo = mid;
        }
    }
    let fb = interp_vec(&bits1, &bits2, lo, Ghost(row as int), Ghost(m));
    let ghost b = ints64(fb@);
    proof {
        assert forall|i: int| 0 <= i < MAX_BANDS implies 0 <= #[trigger] b[i] by {
            assert(b[i] == fb@[i] as int);
        }
        if lo == 0 {
            if row == 0 {
                lemma_first_row_empty();
                assert forall|i: int| 0 <= i < MAX_BANDS implies #[trigger] b[i] == 0 by {
                    assert(b[i] == interp_bits(m, 0, 0)[i]);
                    assert(static_alloc_seq()[i] == 0);
                    assert(0 * 21 + i == i);
                    let n = freq_range_seq()[i] as int;
                    let p = pow2(m.lm + m.stereo) as int;
                    assert(n * 0 * p == 0) by (nonlinear_arith);
                    assert(raw_bits(m, 0, i) == 0);
                }
                lemma_zero_bits(m, b, start as int);
            } else {
                assert forall|i: int| start <= i < end implies b[i] == #[trigger] row_bits(m, row as int)[i] by {
                    assert(b[i] == interp_bits(m, row as int, 0)[i]);
                }
                lemma_alloc_agree(m, b, row_bits(m, row as int), start as int);
            }
        }
    }
    let c8: i64 = 8 * (stereo as i64 + 1);
    let mut pulses: Vec<i32> = Vec::new();
    let mut k: usize = 0;
    while k < MAX_BANDS
        invariant
            k <= MAX_BANDS,
            pulses@.len() == k,
            forall|j: int| 0 <= j < k ==> #[trigger] pulses@[j] == 0,
        decreases MAX_BANDS - k,
    {
        pulses.push(0);
        k = k + 1;
    }
    proof {
        assert forall|i: int| 0 <= i < MAX_BANDS implies 0 <= #[trigger] pulses@[i] <= caps@[i] by {
            assert(m.caps[i] == caps@[i] as int);
        }
    }
    let mut done = false;
    let mut j: usize = end;
    while j > start
        invariant
            model_wf(m),
            m == alloc_model(lm, stereo, start, end, caps@, thresh@, trim@, boost@),
            b == ints64(fb@),
            fb@.len() == MAX_BANDS,
            forall|i: int| 0 <= i < MAX_BANDS ==> 0 <= #[trigger] fb@[i] <= 0x100_0000,
            c8 == 8 * (m.stereo + 1),
            start <= j <= end,
            done == any_above(b, m.thresh, j as int, m.end),
            pulses@.len() == MAX_BANDS,
            forall|i: int| j <= i < end ==> #[trigger] pulses@[i] as int == band_alloc(m, b, i),
            forall|i: int|
                0 <= i < MAX_BANDS && !(j <= i < end) ==> #[trigger] pulses@[i] == 0,
            forall|i: int| 0 <= i < MAX_BANDS ==> 0 <= #[trigger] pulses@[i] <= caps@[i],
        decreases j,
    {
        j = j - 1;
        proof {
            assert(m.caps[j as int] == caps@[j as int] as int);
            assert(m.thresh[j as int] == thresh@[j as int] as int);
            assert(b[j as int] == fb@[j as int] as int);
        }
        let v = fb[j];
        let cap = caps[j] as i64;
        let bits = if v >= thresh[j] as i64 || done {
            done = true;
            v
        } else if v >= c8 {
            c8
        } else {
            0
        };
        let p = if bits < cap {
            bits
        } else {
            cap
        };
        pulses.set(j, p as i32);
    }
    (pulses, row, lo)
}

proof fn lemma_freq_range_bounds()
    ensures
        forall|i: int| 0 <= i < MAX_BANDS ==> 1 <= #[trigger] freq_range_seq()[i] <= 22,
{
    assert forall|i: int| 0 <= i < MAX_BANDS implies 1 <= #[trigger] freq_range_seq()[i] <= 22 by {
        if i == 0 {
            assert(freq_range_seq()[0] == 1);
        } else if i == 1 {
            assert(freq_range_seq()[1] == 1);
        } else if i == 2 {
            assert(freq_range_seq()[2] == 1);
        } else if i == 3 {
            assert(freq_range_seq()[3] == 1);
        } else if i == 4 {
            assert(freq_range_seq()[4] == 1);
        } else if i == 5 {
            assert(freq_range_seq()[5] == 1);
        } else if i == 6 {
            assert(freq_range_seq()[6] == 1);
        } else if i == 7 {
            assert(freq_range_seq()[7] == 1);
        } else if i == 8 {
            assert(freq_range_seq()[8] == 2);
        } else if i == 9 {
            assert(freq_range_seq()[9] == 2);
        } else if i == 10 {
            assert(freq_range_seq()[10] == 2);
        } else if i == 11 {
            assert(freq_range_seq()[11] == 2);
        } else if i == 12 {
            assert(freq_range_seq()[12] == 4);
        } else if i == 13 {
            assert(freq_range_seq()[13] == 4);
        } else if i == 14 {
            assert(freq_range_seq()[14] == 4);
        } else if i == 15 {
            assert(freq_range_seq()[15] == 6);
        } else if i == 16 {
            assert(freq_range_seq()[16] == 6);
        } else if i == 17 {
            assert(freq_range_seq()[17] == 8);
        } else if i == 18 {
            assert(freq_range_seq()[18] == 12);
        } else if i == 19 {
            assert(freq_range_seq()[19] == 18);
        } else if i == 20 {
            assert(freq_range_seq()[20] == 22);
        }
    }
}

/// Largest allocation band `i` may get, in eighths of a bit.
pub open spec fn cap_value(lm: nat, stereo: nat, i: int) -> int {
    ((static_caps_seq()[lm * 42 + stereo * 21 + i] as int + 64) * (freq_range_seq()[i] as int) * (
    pow2(lm + stereo) as int)) / 4
}

/// Bits below which band `i` is not worth coding beyond its minimum.
pub open spec fn thresh_value(lm: nat, stereo: nat, i: int) -> int {
    let t = (3 * (freq_range_seq()[i] as int) * (pow2(lm) as int) * 8) / 16;
    let c8 = 8 * (stereo + 1) as int;
    if t > c8 {
        t
    } else {
        c8
    }
}

/// How the allocation trim shifts band `i`: bands below the top one get more for a trim above
/// the neutral value, less for one below it.
pub open spec fn trim_value(lm: nat, stereo: nat, alloc_trim: int, end: int, i: int) -> int {
    let n = freq_range_seq()[i] as int;
    let base = ((stereo + 1) as int * n * (alloc_trim - 5 - lm as int) * (end - i - 1) * (pow2(
        lm + 3,
    ) as int)) / 64;
    if n * pow2(lm) == 1 {
        base - 8 * (stereo + 1) as int
    } else {
        base
    }
}

/// Size of one dynamic boost step of band `i`.
pub open spec fn quanta_value(lm: nat, stereo: nat, i: int) -> int {
    let width = (freq_range_seq()[i] as int) * (pow2(lm + stereo) as int);
    let w = if width > 48 {
        width
    } else {
        48
    };
    if 8 * width < w {
        8 * width
    } else {
        w
    }
}

/// Per-band caps.
pub fn compute_caps(lm: usize, stereo: usize) -> (r: Vec<i32>)
    requires
        lm < 4,
        stereo < 2,
    ensures
        r@.len() == MAX_BANDS,
        forall|i: int| 0 <= i < MAX_BANDS ==> #[trigger] r@[i] == cap_value(lm as nat, stereo as nat, i),
        forall|i: int| 0 <= i < MAX_BANDS ==> 16 <= #[trigger] r@[i] <= 0x8_0000,
{
    proof {
        lemma_freq_range_bounds();
        lemma_pow2_small((lm + stereo) as nat);
    }
    let p = scale_factor(lm + stereo);
    let mut v: Vec<i32> = Vec::new();
    let mut i: usize = 0;
    while i < MAX_BANDS
        invariant
            lm < 4,
            stereo < 2,
            p == pow2((lm + stereo) as nat),
            1 <= p <= 16,
            forall|i: int| 0 <= i < MAX_BANDS ==> 1 <= #[trigger] freq_range_seq()[i] <= 22,
            i <= MAX_BANDS,
            v@.len() == i,
            forall|j: int| 0 <= j < i ==> #[trigger] v@[j] == cap_value(lm as nat, stereo as nat, j),
            forall|j: int| 0 <= j < i ==> 16 <= #[trigger] v@[j] <= 0x8_0000,
        decreases MAX_BANDS - i,
    {
        let c = static_caps(lm, stereo, i) as i64 + 64;
        let n = freq_range(i) as i64;
        proof {
            assert(64 <= c <= 319);
            assert(64 <= c * n <= 319 * 22) by (nonlinear_arith)
                requires
                    64 <= c <= 319,
                    1 <= n <= 22,
            ;
            assert(64 <= c * n * p <= 319 * 22 * 16) by (nonlinear_arith)
                requires
                    64 <= c * n <= 319 * 22,
                    1 <= p <= 16,
            ;
        }
        v.push((c * n * p / 4) as i32);
        i = i + 1;
    }
    v
}

/// Per-band thresholds.
pub fn compute_thresholds(lm: usize, stereo: usize) -> (r: Vec<i32>)
    requires
        lm < 4,
        stereo < 2,
    ensures
        r@.len() == MAX_BANDS,
        forall|i: int| 0 <= i < MAX_BANDS ==> #[trigger] r@[i] == thresh_value(lm as nat, stereo as nat, i),
        forall|i: int| 0 <= i < MAX_BANDS ==> 8 <= #[trigger] r@[i] <= 0x10000,
{
    proof {
        lemma_freq_range_bounds();
        lemma_pow2_small(lm as nat);
    }
    let p = scale_factor(lm);
    let c8: i64 = 8 * (stereo as i64 + 1);
    let mut v: Vec<i32> = Vec::new();
    let mut i: usize = 0;
    while i < MAX_BANDS
        invariant
            lm < 4,
            stereo < 2,
            p == pow2(lm as nat),
            1 <= p <= 16,
            c8 == 8 * (stereo + 1),
            forall|i: int| 0 <= i < MAX_BANDS ==> 1 <= #[trigger] freq_range_seq()[i] <= 22,
            i <= MAX_BANDS,
            v@.len() == i,
            forall|j: int| 0 <= j < i ==> #[trigger] v@[j] == thresh_value(lm as nat, stereo as nat, j),
            forall|j: int| 0 <= j < i ==> 8 <= #[trigger] v@[j] <= 0x10000,
        decreases MAX_BANDS - i,
    {
        let n = freq_range(i) as i64;
        proof {
            assert(0 <= 3 * n * p * 8 <= 3 * 22 * 16 * 8) by (nonlinear_arith)
                requires
                    1 <= n <= 22,
                    1 <= p <= 16,
            ;
        }
        let t = 3 * n * p * 8 / 16;
        v.push(
            if t > c8 {
                t as i32
            } else {
                c8 as i32
            },
        );
        i = i + 1;
    }
    v
}

fn floor_div64(x: i64) -> (r: i64)
    requires
        -0x1000_0000 <= x <= 0x1000_0000,
    ensures
        r == x as int / 64,
{
    if x >= 0 {
        x / 64
    } else {
        let q = (-x + 63) / 64;
        proof {
            let xi = x as int;
            assert(-q == xi / 64) by (nonlinear_arith)
                requires
                    xi < 0,
                    q == (-xi + 63) / 64,
            ;
        }
        -q
    }
}

/// Per-band trim offsets.
pub fn compute_trim_offsets(lm: usize, stereo: usize, alloc_trim: usize, end: usize) -> (r: Vec<i32>)
    requires
        lm < 4,
        stereo < 2,
        alloc_trim <= 10,
        end <= MAX_BANDS,
    ensures
        r@.len() == MAX_BANDS,
        forall|i: int|
            0 <= i < end ==> #[trigger] r@[i] == trim_value(
                lm as nat,
                stereo as nat,
                alloc_trim as int,
                end as int,
                i,
            ),
        forall|i: int| end <= i < MAX_BANDS ==> #[trigger] r@[i] == 0,
        forall|i: int| 0 <= i < MAX_BANDS ==> -0x10_0000 <= #[trigger] r@[i] <= 0x10_0000,
{
    proof {
        lemma_freq_range_bounds();
        lemma_pow2_small(lm as nat);
        reveal_with_fuel(pow2, 4);
    }
    let p = scale_factor(lm);
    let p3 = p * 8;
    let c: i64 = stereo as i64 + 1;
    let trim: i64 = alloc_trim as i64 - 5 - lm as i64;
    let mut v: Vec<i32> = Vec::new();
    let mut i: usize = 0;
    while i < MAX_BANDS
        invariant
            lm < 4,
            stereo < 2,
            end <= MAX_BANDS,
            p == pow2(lm as nat),
            p3 == pow2((lm + 3) as nat),
            1 <= p <= 16,
            8 <= p3 <= 128,
            c == stereo + 1,
            trim == alloc_trim - 5 - lm,
            -8 <= trim <= 5,
            forall|i: int| 0 <= i < MAX_BANDS ==> 1 <= #[trigger] freq_range_seq()[i] <= 22,
            i <= MAX_BANDS,
            v@.len() == i,
            forall|j: int|
                0 <= j < i && j < end ==> #[trigger] v@[j] == trim_value(
                    lm as nat,
                    stereo as nat,
                    alloc_trim as int,
                    end as int,
                    j,
                ),
            forall|j: int| end <= j < i ==> #[trigger] v@[j] == 0,
            forall|j: int| 0 <= j < i ==> -0x10_0000 <= #[trigger] v@[j] <= 0x10_0000,
        decreases MAX_BANDS - i,
    {
        if i < end {
            let n = freq_range(i) as i64;
            let span = (end - i - 1) as i64;
            proof {
                assert(1 <= c * n <= 44) by (nonlinear_arith)
                    requires
                        1 <= c <= 2,
                        1 <= n <= 22,
                ;
                assert(-8 * 2 * 22 <= c * n * trim <= 8 * 2 * 22) by (nonlinear_arith)
                    requires
                        1 <= c <= 2,
                        1 <= n <= 22,
                        -8 <= trim <= 5,
                ;
                assert(-8 * 2 * 22 * 20 <= c * n * trim * span <= 8 * 2 * 22 * 20)
                    by (nonlinear_arith)
                    requires
                        -8 * 2 * 22 <= c * n * trim <= 8 * 2 * 22,
                        0 <= span <= 20,
                ;
                assert(-8 * 2 * 22 * 20 * 128 <= c * n * trim * span * p3 <= 8 * 2 * 22 * 20 * 128)
                    by (nonlinear_arith)
                    requires
                        -8 * 2 * 22 * 20 <= c * n * trim * span <= 8 * 2 * 22 * 20,
                        8 <= p3 <= 128,
                ;
                assert(0 <= n * p <= 22 * 16) by (nonlinear_arith)
                    requires
                        1 <= n <= 22,
                        1 <= p <= 16,
                ;
            }
            let base = floor_div64(c * n * trim * span * p3);
            let t = if n * p == 1 {
                base - 8 * c
            } else {
                base
            };
            v.push(t as i32);
        } else {
            v.push(0);
        }
        i = i + 1;
    }
    v
}

/// Sum of `v` over `[start, i)`.
pub open spec fn band_total(v: Seq<int>, start: int, i: int) -> int
    decreases i - start,
{
    if i <= start {
        0
    } else {
        band_total(v, start, i - 1) + v[i - 1]
    }
}

/// One band's boost flags: while the budget allows a flag of probability `1/2^logp` on top of
/// the boost spent so far and the band is under its cap, a decoded "true" adds one step and
/// makes the next flag cost one bit; a "false" ends the band. Gives `(state, boost, spent)`.
pub open spec fn boost_band(s: RangeState, logp: nat, b: int, size: int, cap: int, q: int) -> (
    RangeState,
    int,
    int,
)
    decreases cap + q - b,
{
    if q > 0 && b < cap && logp * 8 + size < available_frac_of(s) {
        let (s1, bit) = logp_step(s, logp as u32);
        if bit {
            boost_band(s1, 1, b + q, size + q, cap, q)
        } else {
            (s1, b, size)
        }
    } else {
        (s, b, size)
    }
}

/// Boosts of the first `n` bands from `start` on: `(state, boosts, spent, cost of the next
/// band's first flag)`. That cost starts at 6 and drops by one after each boosted band, down to 2.
pub open spec fn boost_prefix(s: RangeState, lm: nat, stereo: nat, start: int, caps: Seq<int>, n: nat) -> (
    RangeState,
    Seq<int>,
    int,
    nat,
)
    decreases n,
{
    if n == 0 {
        (s, seq![], 0, 6)
    } else {
        let (s1, bs, size, d) = boost_prefix(s, lm, stereo, start, caps, (n - 1) as nat);
        let i = start + n - 1;
        let (s2, b, size2) = boost_band(s1, d, 0, size, caps[i], quanta_value(lm, stereo, i));
        (s2, bs.push(b), size2, if b != 0 && d > 2 {
            (d - 1) as nat
        } else {
            d
        })
    }
}

proof fn lemma_boost_prefix_len(s: RangeState, lm: nat, stereo: nat, start: int, caps: Seq<int>, n: nat)
    ensures
        boost_prefix(s, lm, stereo, start, caps, n).1.len() == n,
    decreases n,
{
    if n > 0 {
        lemma_boost_prefix_len(s, lm, stereo, start, caps, (n - 1) as nat);
    }
}

/// Decodes the dynamic boosts: per band, flags that each add one step, the first costing six
/// bits' worth of probability (fewer once earlier bands were boosted), each later one one bit,
/// while the budget allows and the band is under its cap. Gives the boosts and their total.
pub fn decode_boosts(
    rd: &mut RangeDecoder,
    lm: usize,
    stereo: usize,
    start: usize,
    end: usize,
    caps: &Vec<i32>,
) -> (r: (Vec<i32>, i64))
    requires
        old(rd).wf(),
        lm < 4,
        stereo < 2,
        start <= end <= MAX_BANDS,
        caps@.len() == MAX_BANDS,
        forall|i: int| 0 <= i < MAX_BANDS ==> 16 <= #[trigger] caps@[i] <= 0x8_0000,
    ensures
        final(rd).wf(),
        r.0@.len() == MAX_BANDS,
        forall|i: int|
            start <= i < end ==> 0 <= #[trigger] r.0@[i] < caps@[i] + quanta_value(
                lm as nat,
                stereo as nat,
                i,
            ),
        forall|i: int|
            start <= i < end ==> (#[trigger] r.0@[i] as int) % quanta_value(
                lm as nat,
                stereo as nat,
                i,
            ) == 0,
        forall|i: int| 0 <= i < MAX_BANDS && !(start <= i < end) ==> #[trigger] r.0@[i] == 0,
        r.1 == band_total(ints(r.0@), start as int, end as int),
        0 <= r.1 <= MAX_BANDS * 0x9_0000,
        available_frac_of(old(rd)@) <= 8 ==> final(rd)@ == old(rd)@,
        ({
            let (s1, bs, size, _d) = boost_prefix(
                old(rd)@,
                lm as nat,
                stereo as nat,
                start as int,
                ints(caps@),
                (end - start) as nat,
            );
            &&& final(rd)@ == s1
            &&& r.1 == size
            &&& forall|i: int| start <= i < end ==> #[trigger] r.0@[i] as int == bs[i - start]
        }),
{
    proof {
        lemma_freq_range_bounds();
        lemma_pow2_small((lm + stereo) as nat);
    }
    let ghost s0 = rd@;
    let p = scale_factor(lm + stereo);
    let mut boost: Vec<i32> = Vec::new();
    let mut k: usize = 0;
    while k < MAX_BANDS
        invariant
            k <= MAX_BANDS,
            boost@.len() == k,
            forall|j: int| 0 <= j < k ==> #[trigger] boost@[j] == 0,
        decreases MAX_BANDS - k,
    {
        boost.push(0);
        k = k + 1;
    }
    let mut boost_size: i64 = 0;
    let mut dynalloc: usize = 6;
    let mut i: usize = start;
    while i < end
        invariant
            rd.wf(),
            lm < 4,
            stereo < 2,
            start <= i <= end <= MAX_BANDS,
            caps@.len() == MAX_BANDS,
            forall|j: int| 0 <= j < MAX_BANDS ==> 16 <= #[trigger] caps@[j] <= 0x8_0000,
            forall|j: int| 0 <= j < MAX_BANDS ==> 1 <= #[trigger] freq_range_seq()[j] <= 22,
            p == pow2((lm + stereo) as nat),
            1 <= p <= 16,
            2 <= dynalloc <= 6,
            boost@.len() == MAX_BANDS,
            forall|j: int|
                start <= j < i ==> 0 <= #[trigger] boost@[j] < caps@[j] + quanta_value(
                    lm as nat,
                    stereo as nat,
                    j,
                ),
            forall|j: int|
                start <= j < i ==> (#[trigger] boost@[j] as int) % quanta_value(
                    lm as nat,
                    stereo as nat,
                    j,
                ) == 0,
            forall|j: int| 0 <= j < MAX_BANDS && !(start <= j < i) ==> #[trigger] boost@[j] == 0,
            boost_size == band_total(ints(boost@), start as int, i as int),
            0 <= boost_size <= (i - start) * 0x9_0000,
            available_frac_of(s0) <= 8 ==> rd@ == s0,
            ({
                let (s1, bs, size, d) = boost_prefix(
                    s0,
                    lm as nat,
                    stereo as nat,
                    start as int,
                    ints(caps@),
                    (i - start) as nat,
                );
                &&& rd@ == s1
                &&& boost_size == size
                &&& dynalloc == d
                &&& bs.len() == i - start
                &&& forall|j: int| start <= j < i ==> #[trigger] boost@[j] as int == bs[j - start]
            }),
        decreases end - i,
    {
        proof {
            lemma_boost_prefix_len(s0, lm as nat, stereo as nat, start as int, ints(caps@), (i - start) as nat);
        }
        let ghost sb = rd@;
        let fr = freq_range(i) as i64;
        proof {
            assert(1 <= fr * p <= 22 * 16) by (nonlinear_arith)
                requires
                    1 <= fr <= 22,
                    1 <= p <= 16,
            ;
        }
        let width = fr * p;
        let w = if width > 48 {
            width
        } else {
            48
        };
        let quanta = if 8 * width < w {
            8 * width
        } else {
            w
        };
        proof {
            assert(quanta == quanta_value(lm as nat, stereo as nat, i as int));
        }
        let cap = caps[i] as i64;
        let mut band_dynalloc = dynalloc;
        let mut b: i64 = 0;
        let mut n: Ghost<int> = Ghost(0);
        let ghost bs0 = boost_size;
        while ((band_dynalloc * 8) as i64 + boost_size) < rd.available_frac() as i64 && b < cap
            invariant_except_break
                boost_band(rd@, band_dynalloc as nat, b as int, boost_size as int, cap as int, quanta as int)
                    == boost_band(sb, dynalloc as nat, 0, bs0 as int, cap as int, quanta as int),
            invariant
                rd.wf(),
                1 <= band_dynalloc <= 6,
                8 <= quanta <= 22 * 16 * 8,
                16 <= cap <= 0x8_0000,
                0 <= b < cap + quanta,
                b == n@ * quanta,
                boost_size == bs0 + b,
                0 <= bs0 <= (i - start) * 0x9_0000,
                n@ >= 0,
                available_frac_of(s0) <= 8 ==> rd@ == s0 && b == 0,
                i < end <= MAX_BANDS,
            ensures
                (rd@, b as int, boost_size as int) == boost_band(sb, dynalloc as nat, 0, bs0 as int, cap as int, quanta as int),
            decreases cap + quanta - b,
        {
            if !rd.decode_logp(band_dynalloc) {
                break;
            }
            proof {
                assert((n@ + 1) * quanta == n@ * quanta + quanta) by (nonlinear_arith);
            }
            b = b + quanta;
            boost_size = boost_size + quanta;
            n = Ghost(n@ + 1);
            band_dynalloc = 1;
        }
        proof {
            assert((b as int) % (quanta as int) == 0) by (nonlinear_arith)
                requires
                    b == n@ * quanta,
                    quanta > 0,
            ;
        }
        let ghost old_boost = boost@;
        boost.set(i, b as i32);
        proof {
            assert(ints(boost@) == ints(old_boost).update(i as int, b as int));
            assert forall|j: int| start <= j < i implies ints(boost@)[j] == ints(old_boost)[j] by {}
            lemma_band_total_agree(ints(boost@), ints(old_boost), start as int, i as int);
        }
        if b != 0 && dynalloc > 2 {
            dynalloc = dynalloc - 1;
        }
        i = i + 1;
    }
    (boost, boost_size)
}

proof fn lemma_band_total_agree(a: Seq<int>, b: Seq<int>, start: int, i: int)
    requires
        forall|j: int| start <= j < i ==> a[j] == b[j],
    ensures
        band_total(a, start, i) == band_total(b, start, i),
    decreases i - start,
{
    if i > start {
        lemma_band_total_agree(a, b, start, i - 1);
    }
}

/// Caps of all bands, as `compute_caps` gives them.
pub open spec fn caps_seq(lm: usize, stereo: usize) -> Seq<i32> {
    Seq::new(MAX_BANDS as nat, |i: int| cap_value(lm as nat, stereo as nat, i) as i32)
}

/// Thresholds of all bands, as `compute_thresholds` gives them.
pub open spec fn thresh_seq(lm: usize, stereo: usize) -> Seq<i32> {
    Seq::new(MAX_BANDS as nat, |i: int| thresh_value(lm as nat, stereo as nat, i) as i32)
}

/// Trim offsets of all bands, as `compute_trim_offsets` gives them.
pub open spec fn trim_seq(lm: usize, stereo: usize, alloc_trim: usize, end: usize) -> Seq<i32> {
    Seq::new(
        MAX_BANDS as nat,
        |i: int|
            if i < end {
                trim_value(lm as nat, stereo as nat, alloc_trim as int, end as int, i) as i32
            } else {
                0
            },
    )
}

pub proof fn lemma_caps_seq(lm: usize, stereo: usize, caps: Seq<i32>)
    requires
        caps.len() == MAX_BANDS,
        forall|i: int| 0 <= i < MAX_BANDS ==> #[trigger] caps[i] == cap_value(lm as nat, stereo as nat, i),
    ensures
        caps == caps_seq(lm, stereo),
{
    assert(caps =~= caps_seq(lm, stereo));
}

pub proof fn lemma_thresh_seq(lm: usize, stereo: usize, thresh: Seq<i32>)
    requires
        thresh.len() == MAX_BANDS,
        forall|i: int| 0 <= i < MAX_BANDS ==> #[trigger] thresh[i] == thresh_value(lm as nat, stereo as nat, i),
    ensures
        thresh == thresh_seq(lm, stereo),
{
    assert(thresh =~= thresh_seq(lm, stereo));
}

pub proof fn lemma_trim_seq(lm: usize, stereo: usize, alloc_trim: usize, end: usize, trim: Seq<i32>)
    requires
        trim.len() == MAX_BANDS,
        forall|i: int|
            0 <= i < end ==> #[trigger] trim[i] == trim_value(
                lm as nat,
                stereo as nat,
                alloc_trim as int,
                end as int,
                i,
            ),
        forall|i: int| end <= i < MAX_BANDS ==> #[trigger] trim[i] == 0,
    ensures
        trim == trim_seq(lm, stereo, alloc_trim, end),
{
    assert(trim =~= trim_seq(lm, stereo, alloc_trim, end));
}

pub proof fn lemma_boost_bound(lm: usize, stereo: usize, start: usize, end: usize, caps: Seq<i32>, boost: Seq<i32>)
    requires
        lm < 4,
        stereo < 2,
        boost.len() == MAX_BANDS,
        forall|i: int| 0 <= i < MAX_BANDS ==> #[trigger] caps[i] <= 0x8_0000,
        forall|i: int|
            start <= i < end ==> 0 <= #[trigger] boost[i] < caps[i] + quanta_value(
                lm as nat,
                stereo as nat,
                i,
            ),
        forall|i: int| 0 <= i < MAX_BANDS && !(start <= i < end) ==> #[trigger] boost[i] == 0,
    ensures
        forall|i: int| 0 <= i < MAX_BANDS ==> 0 <= #[trigger] boost[i] <= 0x10_0000,
{
    lemma_freq_range_bounds();
    lemma_pow2_small((lm + stereo) as nat);
    assert forall|i: int| 0 <= i < MAX_BANDS implies 0 <= #[trigger] boost[i] <= 0x10_0000 by {
        if start <= i < end {
            let n = freq_range_seq()[i] as int;
            let p = pow2((lm + stereo) as nat) as int;
            assert(n * p <= 22 * 16) by (nonlinear_arith)
                requires
                    1 <= n <= 22,
                    1 <= p <= 16,
            ;
        }
    }
}

/// The allocation search's inputs, as the decoder computes them, are within its limits.
pub proof fn lemma_decoder_model_wf(
    lm: usize,
    stereo: usize,
    start: usize,
    end: usize,
    alloc_trim: usize,
    caps: Seq<i32>,
    thresh: Seq<i32>,
    trim: Seq<i32>,
    boost: Seq<i32>,
)
    requires
        lm < 4,
        stereo < 2,
        start <= end <= MAX_BANDS,
        caps.len() == MAX_BANDS,
        thresh.len() == MAX_BANDS,
        trim.len() == MAX_BANDS,
        boost.len() == MAX_BANDS,
        forall|i: int| 0 <= i < MAX_BANDS ==> 16 <= #[trigger] caps[i] <= 0x8_0000,
        forall|i: int| 0 <= i < MAX_BANDS ==> 8 <= #[trigger] thresh[i] <= 0x10000,
        forall|i: int| 0 <= i < MAX_BANDS ==> -0x10_0000 <= #[trigger] trim[i] <= 0x10_0000,
        forall|i: int|
            start <= i < end ==> 0 <= #[trigger] boost[i] < caps[i] + quanta_value(
                lm as nat,
                stereo as nat,
                i,
            ),
        forall|i: int| 0 <= i < MAX_BANDS && !(start <= i < end) ==> #[trigger] boost[i] == 0,
    ensures
        model_wf(alloc_model(lm, stereo, start, end, caps, thresh, trim, boost)),
{
    lemma_boost_bound(lm, stereo, start, end, caps, boost);
    let m = alloc_model(lm, stereo, start, end, caps, thresh, trim, boost);
    assert forall|i: int| 0 <= i < MAX_BANDS implies 8 * (m.stereo + 1) <= #[trigger] m.caps[i] <= 0x8_0000 by {
        assert(m.caps[i] == caps[i] as int);
    }
    assert forall|i: int| 0 <= i < MAX_BANDS implies 8 <= #[trigger] m.thresh[i] <= 0x10000 by {
        assert(m.thresh[i] == thresh[i] as int);
    }
    assert forall|i: int| 0 <= i < MAX_BANDS implies -0x10_0000 <= #[trigger] m.trim[i] <= 0x10_0000 by {
        assert(m.trim[i] == trim[i] as int);
    }
    assert forall|i: int| 0 <= i < MAX_BANDS implies 0 <= #[trigger] m.boost[i] <= 0x10_0000 by {
        assert(m.boost[i] == boost[i] as int);
    }
}

/// Eighths of a bit left for the bands once the fixed-cost flags are reserved, with what each
/// reservation took: `(left, anti-collapse, skip, intensity stereo, dual stereo)`.
pub open spec fn reserve_spec(avail_frac: int, blocks: nat, lm: nat, stereo: bool, nbands: nat) -> (
    int,
    nat,
    nat,
    nat,
    nat,
) {
    let a0 = avail_frac - 1;
    let anti: nat = if blocks > 1 && lm >= 2 && a0 >= (lm + 2) * 8 {
        8
    } else {
        0
    };
    let a1 = a0 - anti;
    let skip: nat = if a1 >= 8 {
        8
    } else {
        0
    };
    let a2 = a1 - skip;
    let intensity = crate::tables::log2_frac_seq()[nbands as int] as nat;
    if stereo && intensity <= a2 {
        let a3 = a2 - intensity;
        let dual: nat = if a3 >= 8 {
            8
        } else {
            0
        };
        (a3 - dual, anti, skip, intensity, dual)
    } else {
        (a2, anti, skip, 0, 0)
    }
}

/// Reserves the fixed-cost flags out of `avail_frac` eighths of a bit.
pub fn reserve_bits(avail_frac: usize, blocks: usize, lm: usize, stereo: bool, nbands: usize) -> (r: (
    i64,
    usize,
    usize,
    usize,
    usize,
))
    requires
        avail_frac <= 0x4000_0000,
        lm < 4,
        nbands <= MAX_BANDS,
    ensures
        (r.0 as int, r.1 as nat, r.2 as nat, r.3 as nat, r.4 as nat) == reserve_spec(
            avail_frac as int,
            blocks as nat,
            lm as nat,
            stereo,
            nbands as nat,
        ),
        -1 <= r.0 < avail_frac,
{
    let mut available: i64 = avail_frac as i64 - 1;
    let anti: usize = if blocks > 1 && lm >= 2 && available >= ((lm + 2) * 8) as i64 {
        8
    } else {
        0
    };
    available = available - anti as i64;
    let skip: usize = if available >= 8 {
        8
    } else {
        0
    };
    available = available - skip as i64;
    let intensity = crate::tables::log2_frac(nbands) as i64;
    if stereo && intensity <= available {
        available = available - intensity;
        let dual: usize = if available >= 8 {
            8
        } else {
            0
        };
        (available - dual as i64, anti, skip, intensity as usize, dual)
    } else {
        (available, anti, skip, 0, 0)
    }
}

/// More bits in every band never lowers what a band gets, nor the total.
proof fn lemma_alloc_monotone(m: AllocModel, a: Seq<int>, b: Seq<int>, i: int)
    requires
        model_wf(m),
        m.start <= i,
        forall|k: int| 0 <= k < MAX_BANDS ==> 0 <= #[trigger] a[k] <= b[k],
    ensures
        any_above(a, m.thresh, i, m.end) ==> any_above(b, m.thresh, i, m.end),
        alloc_sum(m, a, i) <= alloc_sum(m, b, i),
    decreases m.end - i,
{
    if i < m.end {
        lemma_alloc_monotone(m, a, b, i + 1);
        assert(band_alloc(m, a, i) <= band_alloc(m, b, i));
    }
}

proof fn lemma_interp_monotone(m: AllocModel, row: int, f1: int, f2: int)
    requires
        model_wf(m),
        0 <= row < ALLOC_ROWS,
        0 <= f1 <= f2,
    ensures
        forall|k: int|
            0 <= k < MAX_BANDS ==> 0 <= #[trigger] interp_bits(m, row, f1)[k] <= interp_bits(
                m,
                row,
                f2,
            )[k],
{
    assert forall|k: int| 0 <= k < MAX_BANDS implies 0 <= #[trigger] interp_bits(m, row, f1)[k]
        <= interp_bits(m, row, f2)[k] by {
        lemma_raw_bounds(m, row, k);
        let st = step_bits(m, row, k);
        assert(0 <= (f1 * st) / 64 <= (f2 * st) / 64) by (nonlinear_arith)
            requires
                0 <= f1 <= f2,
                0 <= st,
        ;
    }
}

proof fn lemma_same_row_monotone(
    m: AllocModel,
    row: int,
    f1: int,
    f2: int,
    a1: int,
    a2: int,
)
    requires
        model_wf(m),
        0 <= row < ALLOC_ROWS,
        0 <= f1 < 64,
        0 <= f2 < 64,
        a1 <= a2,
        f1 == 0 || alloc_total(m, interp_bits(m, row, f1)) <= a1,
        f2 == 63 || alloc_total(m, interp_bits(m, row, f2 + 1)) > a2,
    ensures
        alloc_total(m, interp_bits(m, row, f1)) <= alloc_total(m, interp_bits(m, row, f2)),
{
    if f1 > f2 {
        lemma_interp_monotone(m, row, f2 + 1, f1);
        lemma_alloc_monotone(m, interp_bits(m, row, f2 + 1), interp_bits(m, row, f1), m.start);
        assert(false);
    }
    lemma_interp_monotone(m, row, f1, f2);
    lemma_alloc_monotone(m, interp_bits(m, row, f1), interp_bits(m, row, f2), m.start);
}

proof fn lemma_static_alloc_row0()
    ensures
        forall|i: int|
            0 <= i < MAX_BANDS ==> #[trigger] static_alloc_seq()[0 * 21 + i] <= static_alloc_seq()[1 * 21 + i],
{
    assert forall|i: int| 0 <= i < MAX_BANDS implies #[trigger] static_alloc_seq()[0 * 21 + i] <= static_alloc_seq()[1 * 21 + i] by {
        if i == 0 {
            assert(static_alloc_seq()[0] == 0); assert(static_alloc_seq()[21] == 90);
        } else if i == 1 {
            assert(static_alloc_seq()[1] == 0); assert(static_alloc_seq()[22] == 80);
        } else if i == 2 {
            assert(static_alloc_seq()[2] == 0); assert(static_alloc_seq()[23] == 75);
        } else if i == 3 {
            assert(static_alloc_seq()[3] == 0); assert(static_alloc_seq()[24] == 69);
        } else if i == 4 {
            assert(static_alloc_seq()[4] == 0); assert(static_alloc_seq()[25] == 63);
        } else if i == 5 {
            assert(static_alloc_seq()[5] == 0); assert(static_alloc_seq()[26] == 56);
        } else if i == 6 {
            assert(static_alloc_seq()[6] == 0); assert(static_alloc_seq()[27] == 49);
        } else if i == 7 {
            assert(static_alloc_seq()[7] == 0); assert(static_alloc_seq()[28] == 40);
        } else if i == 8 {
            assert(static_alloc_seq()[8] == 0); assert(static_alloc_seq()[29] == 34);
        } else if i == 9 {
            assert(static_alloc_seq()[9] == 0); assert(static_alloc_seq()[30] == 29);
        } else if i == 10 {
            assert(static_alloc_seq()[10] == 0); assert(static_alloc_seq()[31] == 20);
        } else if i == 11 {
            assert(static_alloc_seq()[11] == 0); assert(static_alloc_seq()[32] == 18);
        } else if i == 12 {
            assert(static_alloc_seq()[12] == 0); assert(static_alloc_seq()[33] == 10);
        } else if i == 13 {
            assert(static_alloc_seq()[13] == 0); assert(static_alloc_seq()[34] == 0);
        } else if i == 14 {
            assert(static_alloc_seq()[14] == 0); assert(static_alloc_seq()[35] == 0);
        } else if i == 15 {
            assert(static_alloc_seq()[15] == 0); assert(static_alloc_seq()[36] == 0);
        } else if i == 16 {
            assert(static_alloc_seq()[16] == 0); assert(static_alloc_seq()[37] == 0);
        } else if i == 17 {
            assert(static_alloc_seq()[17] == 0); assert(static_alloc_seq()[38] == 0);
        } else if i == 18 {
            assert(static_alloc_seq()[18] == 0); assert(static_alloc_seq()[39] == 0);
        } else if i == 19 {
            assert(static_alloc_seq()[19] == 0); assert(static_alloc_seq()[40] == 0);
        } else if i == 20 {
            assert(static_alloc_seq()[20] == 0); assert(static_alloc_seq()[41] == 0);
        }
    }
}

proof fn lemma_static_alloc_row1()
    ensures
        forall|i: int|
            0 <= i < MAX_BANDS ==> #[trigger] static_alloc_seq()[1 * 21 + i] <= static_alloc_seq()[2 * 21 + i],
{
    assert forall|i: int| 0 <= i < MAX_BANDS implies #[trigger] static_alloc_seq()[1 * 21 + i] <= static_alloc_seq()[2 * 21 + i] by {
        if i == 0 {
            assert(static_alloc_seq()[21] == 90); assert(static_alloc_seq()[42] == 110);
        } else if i == 1 {
            assert(static_alloc_seq()[22] == 80); assert(static_alloc_seq()[43] == 100);
        } else if i == 2 {
            assert(static_alloc_seq()[23] == 75); assert(static_alloc_seq()[44] == 90);
        } else if i == 3 {
            assert(static_alloc_seq()[24] == 69); assert(static_alloc_seq()[45] == 84);
        } else if i == 4 {
            assert(static_alloc_seq()[25] == 63); assert(static_alloc_seq()[46] == 78);
        } else if i == 5 {
            assert(static_alloc_seq()[26] == 56); assert(static_alloc_seq()[47] == 71);
        } else if i == 6 {
            assert(static_alloc_seq()[27] == 49); assert(static_alloc_seq()[48] == 65);
        } else if i == 7 {
            assert(static_alloc_seq()[28] == 40); assert(static_alloc_seq()[49] == 58);
        } else if i == 8 {
            assert(static_alloc_seq()[29] == 34); assert(static_alloc_seq()[50] == 51);
        } else if i == 9 {
            assert(static_alloc_seq()[30] == 29); assert(static_alloc_seq()[51] == 45);
        } else if i == 10 {
            assert(static_alloc_seq()[31] == 20); assert(static_alloc_seq()[52] == 39);
        } else if i == 11 {
            assert(static_alloc_seq()[32] == 18); assert(static_alloc_seq()[53] == 32);
        } else if i == 12 {
            assert(static_alloc_seq()[33] == 10); assert(static_alloc_seq()[54] == 26);
        } else if i == 13 {
            assert(static_alloc_seq()[34] == 0); assert(static_alloc_seq()[55] == 20);
        } else if i == 14 {
            assert(static_alloc_seq()[35] == 0); assert(static_alloc_seq()[56] == 12);
        } else if i == 15 {
            assert(static_alloc_seq()[36] == 0); assert(static_alloc_seq()[57] == 0);
        } else if i == 16 {
            assert(static_alloc_seq()[37] == 0); assert(static_alloc_seq()[58] == 0);
        } else if i == 17 {
            assert(static_alloc_seq()[38] == 0); assert(static_alloc_seq()[59] == 0);
        } else if i == 18 {
            assert(static_alloc_seq()[39] == 0); assert(static_alloc_seq()[60] == 0);
        } else if i == 19 {
            assert(static_alloc_seq()[40] == 0); assert(static_alloc_seq()[61] == 0);
        } else if i == 20 {
            assert(static_alloc_seq()[41] == 0); assert(static_alloc_seq()[62] == 0);
        }
    }
}

proof fn lemma_static_alloc_row2()
    ensures
        forall|i: int|
            0 <= i < MAX_BANDS ==> #[trigger] static_alloc_seq()[2 * 21 + i] <= static_alloc_seq()[3 * 21 + i],
{
    assert forall|i: int| 0 <= i < MAX_BANDS implies #[trigger] static_alloc_seq()[2 * 21 + i] <= static_alloc_seq()[3 * 21 + i] by {
        if i == 0 {
            assert(static_alloc_seq()[42] == 110); assert(static_alloc_seq()[63] == 118);
        } else if i == 1 {
            assert(static_alloc_seq()[43] == 100); assert(static_alloc_seq()[64] == 110);
        } else if i == 2 {
            assert(static_alloc_seq()[44] == 90); assert(static_alloc_seq()[65] == 103);
        } else if i == 3 {
            assert(static_alloc_seq()[45] == 84); assert(static_alloc_seq()[66] == 93);
        } else if i == 4 {
            assert(static_alloc_seq()[46] == 78); assert(static_alloc_seq()[67] == 86);
        } else if i == 5 {
            assert(static_alloc_seq()[47] == 71); assert(static_alloc_seq()[68] == 80);
        } else if i == 6 {
            assert(static_alloc_seq()[48] == 65); assert(static_alloc_seq()[69] == 75);
        } else if i == 7 {
            assert(static_alloc_seq()[49] == 58); assert(static_alloc_seq()[70] == 70);
        } else if i == 8 {
            assert(static_alloc_seq()[50] == 51); assert(static_alloc_seq()[71] == 65);
        } else if i == 9 {
            assert(static_alloc_seq()[51] == 45); assert(static_alloc_seq()[72] == 59);
        } else if i == 10 {
            assert(static_alloc_seq()[52] == 39); assert(static_alloc_seq()[73] == 53);
        } else if i == 11 {
            assert(static_alloc_seq()[53] == 32); assert(static_alloc_seq()[74] == 47);
        } else if i == 12 {
            assert(static_alloc_seq()[54] == 26); assert(static_alloc_seq()[75] == 40);
        } else if i == 13 {
            assert(static_alloc_seq()[55] == 20); assert(static_alloc_seq()[76] == 31);
        } else if i == 14 {
            assert(static_alloc_seq()[56] == 12); assert(static_alloc_seq()[77] == 23);
        } else if i == 15 {
            assert(static_alloc_seq()[57] == 0); assert(static_alloc_seq()[78] == 15);
        } else if i == 16 {
            assert(static_alloc_seq()[58] == 0); assert(static_alloc_seq()[79] == 4);
        } else if i == 17 {
            assert(static_alloc_seq()[59] == 0); assert(static_alloc_seq()[80] == 0);
        } else if i == 18 {
            assert(static_alloc_seq()[60] == 0); assert(static_alloc_seq()[81] == 0);
        } else if i == 19 {
            assert(static_alloc_seq()[61] == 0); assert(static_alloc_seq()[82] == 0);
        } else if i == 20 {
            assert(static_alloc_seq()[62] == 0); assert(static_alloc_seq()[83] == 0);
        }
    }
}

proof fn lemma_static_alloc_row3()
    ensures
        forall|i: int|
            0 <= i < MAX_BANDS ==> #[trigger] static_alloc_seq()[3 * 21 + i] <= static_alloc_seq()[4 * 21 + i],
{
    assert forall|i: int| 0 <= i < MAX_BANDS implies #[trigger] static_alloc_seq()[3 * 21 + i] <= static_alloc_seq()[4 * 21 + i] by {
        if i == 0 {
            assert(static_alloc_seq()[63] == 118); assert(static_alloc_seq()[84] == 126);
        } else if i == 1 {
            assert(static_alloc_seq()[64] == 110); assert(static_alloc_seq()[85] == 119);
        } else if i == 2 {
            assert(static_alloc_seq()[65] == 103); assert(static_alloc_seq()[86] == 112);
        } else if i == 3 {
            assert(static_alloc_seq()[66] == 93); assert(static_alloc_seq()[87] == 104);
        } else if i == 4 {
            assert(static_alloc_seq()[67] == 86); assert(static_alloc_seq()[88] == 95);
        } else if i == 5 {
            assert(static_alloc_seq()[68] == 80); assert(static_alloc_seq()[89] == 89);
        } else if i == 6 {
            assert(static_alloc_seq()[69] == 75); assert(static_alloc_seq()[90] == 83);
        } else if i == 7 {
            assert(static_alloc_seq()[70] == 70); assert(static_alloc_seq()[91] == 78);
        } else if i == 8 {
            assert(static_alloc_seq()[71] == 65); assert(static_alloc_seq()[92] == 72);
        } else if i == 9 {
            assert(static_alloc_seq()[72] == 59); assert(static_alloc_seq()[93] == 66);
        } else if i == 10 {
            assert(static_alloc_seq()[73] == 53); assert(static_alloc_seq()[94] == 60);
        } else if i == 11 {
            assert(static_alloc_seq()[74] == 47); assert(static_alloc_seq()[95] == 54);
        } else if i == 12 {
            assert(static_alloc_seq()[75] == 40); assert(static_alloc_seq()[96] == 47);
        } else if i == 13 {
            assert(static_alloc_seq()[76] == 31); assert(static_alloc_seq()[97] == 39);
        } else if i == 14 {
            assert(static_alloc_seq()[77] == 23); assert(static_alloc_seq()[98] == 32);
        } else if i == 15 {
            assert(static_alloc_seq()[78] == 15); assert(static_alloc_seq()[99] == 25);
        } else if i == 16 {
            assert(static_alloc_seq()[79] == 4); assert(static_alloc_seq()[100] == 17);
        } else if i == 17 {
            assert(static_alloc_seq()[80] == 0); assert(static_alloc_seq()[101] == 12);
        } else if i == 18 {
            assert(static_alloc_seq()[81] == 0); assert(static_alloc_seq()[102] == 1);
        } else if i == 19 {
            assert(static_alloc_seq()[82] == 0); assert(static_alloc_seq()[103] == 0);
        } else if i == 20 {
            assert(static_alloc_seq()[83] == 0); assert(static_alloc_seq()[104] == 0);
        }
    }
}

proof fn lemma_static_alloc_row4()
    ensures
        forall|i: int|
            0 <= i < MAX_BANDS ==> #[trigger] static_alloc_seq()[4 * 21 + i] <= static_alloc_seq()[5 * 21 + i],
{
    assert forall|i: int| 0 <= i < MAX_BANDS implies #[trigger] static_alloc_seq()[4 * 21 + i] <= static_alloc_seq()[5 * 21 + i] by {
        if i == 0 {
            assert(static_alloc_seq()[84] == 126); assert(static_alloc_seq()[105] == 134);
        } else if i == 1 {
            assert(static_alloc_seq()[85] == 119); assert(static_alloc_seq()[106] == 127);
        } else if i == 2 {
            assert(static_alloc_seq()[86] == 112); assert(static_alloc_seq()[107] == 120);
        } else if i == 3 {
            assert(static_alloc_seq()[87] == 104); assert(static_alloc_seq()[108] == 114);
        } else if i == 4 {
            assert(static_alloc_seq()[88] == 95); assert(static_alloc_seq()[109] == 103);
        } else if i == 5 {
            assert(static_alloc_seq()[89] == 89); assert(static_alloc_seq()[110] == 97);
        } else if i == 6 {
            assert(static_alloc_seq()[90] == 83); assert(static_alloc_seq()[111] == 91);
        } else if i == 7 {
            assert(static_alloc_seq()[91] == 78); assert(static_alloc_seq()[112] == 85);
        } else if i == 8 {
            assert(static_alloc_seq()[92] == 72); assert(static_alloc_seq()[113] == 78);
        } else if i == 9 {
            assert(static_alloc_seq()[93] == 66); assert(static_alloc_seq()[114] == 72);
        } else if i == 10 {
            assert(static_alloc_seq()[94] == 60); assert(static_alloc_seq()[115] == 66);
        } else if i == 11 {
            assert(static_alloc_seq()[95] == 54); assert(static_alloc_seq()[116] == 60);
        } else if i == 12 {
            assert(static_alloc_seq()[96] == 47); assert(static_alloc_seq()[117] == 54);
        } else if i == 13 {
            assert(static_alloc_seq()[97] == 39); assert(static_alloc_seq()[118] == 47);
        } else if i == 14 {
            assert(static_alloc_seq()[98] == 32); assert(static_alloc_seq()[119] == 41);
        } else if i == 15 {
            assert(static_alloc_seq()[99] == 25); assert(static_alloc_seq()[120] == 35);
        } else if i == 16 {
            assert(static_alloc_seq()[100] == 17); assert(static_alloc_seq()[121] == 29);
        } else if i == 17 {
            assert(static_alloc_seq()[101] == 12); assert(static_alloc_seq()[122] == 23);
        } else if i == 18 {
            assert(static_alloc_seq()[102] == 1); assert(static_alloc_seq()[123] == 16);
        } else if i == 19 {
            assert(static_alloc_seq()[103] == 0); assert(static_alloc_seq()[124] == 10);
        } else if i == 20 {
            assert(static_alloc_seq()[104] == 0); assert(static_alloc_seq()[125] == 1);
        }
    }
}

proof fn lemma_static_alloc_row5()
    ensures
        forall|i: int|
            0 <= i < MAX_BANDS ==> #[trigger] static_alloc_seq()[5 * 21 + i] <= static_alloc_seq()[6 * 21 + i],
{
    assert forall|i: int| 0 <= i < MAX_BANDS implies #[trigger] static_alloc_seq()[5 * 21 + i] <= static_alloc_seq()[6 * 21 + i] by {
        if i == 0 {
            assert(static_alloc_seq()[105] == 134); assert(static_alloc_seq()[126] == 144);
        } else if i == 1 {
            assert(static_alloc_seq()[106] == 127); assert(static_alloc_seq()[127] == 137);
        } else if i == 2 {
            assert(static_alloc_seq()[107] == 120); assert(static_alloc_seq()[128] == 130);
        } else if i == 3 {
            assert(static_alloc_seq()[108] == 114); assert(static_alloc_seq()[129] == 124);
        } else if i == 4 {
            assert(static_alloc_seq()[109] == 103); assert(static_alloc_seq()[130] == 113);
        } else if i == 5 {
            assert(static_alloc_seq()[110] == 97); assert(static_alloc_seq()[131] == 107);
        } else if i == 6 {
            assert(static_alloc_seq()[111] == 91); assert(static_alloc_seq()[132] == 101);
        } else if i == 7 {
            assert(static_alloc_seq()[112] == 85); assert(static_alloc_seq()[133] == 95);
        } else if i == 8 {
            assert(static_alloc_seq()[113] == 78); assert(static_alloc_seq()[134] == 88);
        } else if i == 9 {
            assert(static_alloc_seq()[114] == 72); assert(static_alloc_seq()[135] == 82);
        } else if i == 10 {
            assert(static_alloc_seq()[115] == 66); assert(static_alloc_seq()[136] == 76);
        } else if i == 11 {
            assert(static_alloc_seq()[116] == 60); assert(static_alloc_seq()[137] == 70);
        } else if i == 12 {
            assert(static_alloc_seq()[117] == 54); assert(static_alloc_seq()[138] == 64);
        } else if i == 13 {
            assert(static_alloc_seq()[118] == 47); assert(static_alloc_seq()[139] == 57);
        } else if i == 14 {
            assert(static_alloc_seq()[119] == 41); assert(static_alloc_seq()[140] == 51);
        } else if i == 15 {
            assert(static_alloc_seq()[120] == 35); assert(static_alloc_seq()[141] == 45);
        } else if i == 16 {
            assert(static_alloc_seq()[121] == 29); assert(static_alloc_seq()[142] == 39);
        } else if i == 17 {
            assert(static_alloc_seq()[122] == 23); assert(static_alloc_seq()[143] == 33);
        } else if i == 18 {
            assert(static_alloc_seq()[123] == 16); assert(static_alloc_seq()[144] == 26);
        } else if i == 19 {
            assert(static_alloc_seq()[124] == 10); assert(static_alloc_seq()[145] == 15);
        } else if i == 20 {
            assert(static_alloc_seq()[125] == 1); assert(static_alloc_seq()[146] == 1);
        }
    }
}

proof fn lemma_static_alloc_row6()
    ensures
        forall|i: int|
            0 <= i < MAX_BANDS ==> #[trigger] static_alloc_seq()[6 * 21 + i] <= static_alloc_seq()[7 * 21 + i],
{
    assert forall|i: int| 0 <= i < MAX_BANDS implies #[trigger] static_alloc_seq()[6 * 21 + i] <= static_alloc_seq()[7 * 21 + i] by {
        if i == 0 {
            assert(static_alloc_seq()[126] == 144); assert(static_alloc_seq()[147] == 152);
        } else if i == 1 {
            assert(static_alloc_seq()[127] == 137); assert(static_alloc_seq()[148] == 145);
        } else if i == 2 {
            assert(static_alloc_seq()[128] == 130); assert(static_alloc_seq()[149] == 138);
        } else if i == 3 {
            assert(static_alloc_seq()[129] == 124); assert(static_alloc_seq()[150] == 132);
        } else if i == 4 {
            assert(static_alloc_seq()[130] == 113); assert(static_alloc_seq()[151] == 123);
        } else if i == 5 {
            assert(static_alloc_seq()[131] == 107); assert(static_alloc_seq()[152] == 117);
        } else if i == 6 {
            assert(static_alloc_seq()[132] == 101); assert(static_alloc_seq()[153] == 111);
        } else if i == 7 {
            assert(static_alloc_seq()[133] == 95); assert(static_alloc_seq()[154] == 105);
        } else if i == 8 {
            assert(static_alloc_seq()[134] == 88); assert(static_alloc_seq()[155] == 98);
        } else if i == 9 {
            assert(static_alloc_seq()[135] == 82); assert(static_alloc_seq()[156] == 92);
        } else if i == 10 {
            assert(static_alloc_seq()[136] == 76); assert(static_alloc_seq()[157] == 86);
        } else if i == 11 {
            assert(static_alloc_seq()[137] == 70); assert(static_alloc_seq()[158] == 80);
        } else if i == 12 {
            assert(static_alloc_seq()[138] == 64); assert(static_alloc_seq()[159] == 74);
        } else if i == 13 {
            assert(static_alloc_seq()[139] == 57); assert(static_alloc_seq()[160] == 67);
        } else if i == 14 {
            assert(static_alloc_seq()[140] == 51); assert(static_alloc_seq()[161] == 61);
        } else if i == 15 {
            assert(static_alloc_seq()[141] == 45); assert(static_alloc_seq()[162] == 55);
        } else if i == 16 {
            assert(static_alloc_seq()[142] == 39); assert(static_alloc_seq()[163] == 49);
        } else if i == 17 {
            assert(static_alloc_seq()[143] == 33); assert(static_alloc_seq()[164] == 43);
        } else if i == 18 {
            assert(static_alloc_seq()[144] == 26); assert(static_alloc_seq()[165] == 36);
        } else if i == 19 {
            assert(static_alloc_seq()[145] == 15); assert(static_alloc_seq()[166] == 20);
        } else if i == 20 {
            assert(static_alloc_seq()[146] == 1); assert(static_alloc_seq()[167] == 1);
        }
    }
}

proof fn lemma_static_alloc_row7()
    ensures
        forall|i: int|
            0 <= i < MAX_BANDS ==> #[trigger] static_alloc_seq()[7 * 21 + i] <= static_alloc_seq()[8 * 21 + i],
{
    assert forall|i: int| 0 <= i < MAX_BANDS implies #[trigger] static_alloc_seq()[7 * 21 + i] <= static_alloc_seq()[8 * 21 + i] by {
        if i == 0 {
            assert(static_alloc_seq()[147] == 152); assert(static_alloc_seq()[168] == 162);
        } else if i == 1 {
            assert(static_alloc_seq()[148] == 145); assert(static_alloc_seq()[169] == 155);
        } else if i == 2 {
            assert(static_alloc_seq()[149] == 138); assert(static_alloc_seq()[170] == 148);
        } else if i == 3 {
            assert(static_alloc_seq()[150] == 132); assert(static_alloc_seq()[171] == 142);
        } else if i == 4 {
            assert(static_alloc_seq()[151] == 123); assert(static_alloc_seq()[172] == 133);
        } else if i == 5 {
            assert(static_alloc_seq()[152] == 117); assert(static_alloc_seq()[173] == 127);
        } else if i == 6 {
            assert(static_alloc_seq()[153] == 111); assert(static_alloc_seq()[174] == 121);
        } else if i == 7 {
            assert(static_alloc_seq()[154] == 105); assert(static_alloc_seq()[175] == 115);
        } else if i == 8 {
            assert(static_alloc_seq()[155] == 98); assert(static_alloc_seq()[176] == 108);
        } else if i == 9 {
            assert(static_alloc_seq()[156] == 92); assert(static_alloc_seq()[177] == 102);
        } else if i == 10 {
            assert(static_alloc_seq()[157] == 86); assert(static_alloc_seq()[178] == 96);
        } else if i == 11 {
            assert(static_alloc_seq()[158] == 80); assert(static_alloc_seq()[179] == 90);
        } else if i == 12 {
            assert(static_alloc_seq()[159] == 74); assert(static_alloc_seq()[180] == 84);
        } else if i == 13 {
            assert(static_alloc_seq()[160] == 67); assert(static_alloc_seq()[181] == 77);
        } else if i == 14 {
            assert(static_alloc_seq()[161] == 61); assert(static_alloc_seq()[182] == 71);
        } else if i == 15 {
            assert(static_alloc_seq()[162] == 55); assert(static_alloc_seq()[183] == 65);
        } else if i == 16 {
            assert(static_alloc_seq()[163] == 49); assert(static_alloc_seq()[184] == 59);
        } else if i == 17 {
            assert(static_alloc_seq()[164] == 43); assert(static_alloc_seq()[185] == 53);
        } else if i == 18 {
            assert(static_alloc_seq()[165] == 36); assert(static_alloc_seq()[186] == 46);
        } else if i == 19 {
            assert(static_alloc_seq()[166] == 20); assert(static_alloc_seq()[187] == 30);
        } else if i == 20 {
            assert(static_alloc_seq()[167] == 1); assert(static_alloc_seq()[188] == 1);
        }
    }
}

proof fn lemma_static_alloc_row8()
    ensures
        forall|i: int|
            0 <= i < MAX_BANDS ==> #[trigger] static_alloc_seq()[8 * 21 + i] <= static_alloc_seq()[9 * 21 + i],
{
    assert forall|i: int| 0 <= i < MAX_BANDS implies #[trigger] static_alloc_seq()[8 * 21 + i] <= static_alloc_seq()[9 * 21 + i] by {
        if i == 0 {
            assert(static_alloc_seq()[168] == 162); assert(static_alloc_seq()[189] == 172);
        } else if i == 1 {
            assert(static_alloc_seq()[169] == 155); assert(static_alloc_seq()[190] == 165);
        } else if i == 2 {
            assert(static_alloc_seq()[170] == 148); assert(static_alloc_seq()[191] == 158);
        } else if i == 3 {
            assert(static_alloc_seq()[171] == 142); assert(static_alloc_seq()[192] == 152);
        } else if i == 4 {
            assert(static_alloc_seq()[172] == 133); assert(static_alloc_seq()[193] == 143);
        } else if i == 5 {
            assert(static_alloc_seq()[173] == 127); assert(static_alloc_seq()[194] == 137);
        } else if i == 6 {
            assert(static_alloc_seq()[174] == 121); assert(static_alloc_seq()[195] == 131);
        } else if i == 7 {
            assert(static_alloc_seq()[175] == 115); assert(static_alloc_seq()[196] == 125);
        } else if i == 8 {
            assert(static_alloc_seq()[176] == 108); assert(static_alloc_seq()[197] == 118);
        } else if i == 9 {
            assert(static_alloc_seq()[177] == 102); assert(static_alloc_seq()[198] == 112);
        } else if i == 10 {
            assert(static_alloc_seq()[178] == 96); assert(static_alloc_seq()[199] == 106);
        } else if i == 11 {
            assert(static_alloc_seq()[179] == 90); assert(static_alloc_seq()[200] == 100);
        } else if i == 12 {
            assert(static_alloc_seq()[180] == 84); assert(static_alloc_seq()[201] == 94);
        } else if i == 13 {
            assert(static_alloc_seq()[181] == 77); assert(static_alloc_seq()[202] == 87);
        } else if i == 14 {
            assert(static_alloc_seq()[182] == 71); assert(static_alloc_seq()[203] == 81);
        } else if i == 15 {
            assert(static_alloc_seq()[183] == 65); assert(static_alloc_seq()[204] == 75);
        } else if i == 16 {
            assert(static_alloc_seq()[184] == 59); assert(static_alloc_seq()[205] == 69);
        } else if i == 17 {
            assert(static_alloc_seq()[185] == 53); assert(static_alloc_seq()[206] == 63);
        } else if i == 18 {
            assert(static_alloc_seq()[186] == 46); assert(static_alloc_seq()[207] == 56);
        } else if i == 19 {
            assert(static_alloc_seq()[187] == 30); assert(static_alloc_seq()[208] == 45);
        } else if i == 20 {
            assert(static_alloc_seq()[188] == 1); assert(static_alloc_seq()[209] == 20);
        }
    }
}

proof fn lemma_static_alloc_row9()
    ensures
        forall|i: int|
            0 <= i < MAX_BANDS ==> #[trigger] static_alloc_seq()[9 * 21 + i] <= static_alloc_seq()[10 * 21 + i],
{
    assert forall|i: int| 0 <= i < MAX_BANDS implies #[trigger] static_alloc_seq()[9 * 21 + i] <= static_alloc_seq()[10 * 21 + i] by {
        if i == 0 {
            assert(static_alloc_seq()[189] == 172); assert(static_alloc_seq()[210] == 200);
        } else if i == 1 {
            assert(static_alloc_seq()[190] == 165); assert(static_alloc_seq()[211] == 200);
        } else if i == 2 {
            assert(static_alloc_seq()[191] == 158); assert(static_alloc_seq()[212] == 200);
        } else if i == 3 {
            assert(static_alloc_seq()[192] == 152); assert(static_alloc_seq()[213] == 200);
        } else if i == 4 {
            assert(static_alloc_seq()[193] == 143); assert(static_alloc_seq()[214] == 200);
        } else if i == 5 {
            assert(static_alloc_seq()[194] == 137); assert(static_alloc_seq()[215] == 200);
        } else if i == 6 {
            assert(static_alloc_seq()[195] == 131); assert(static_alloc_seq()[216] == 200);
        } else if i == 7 {
            assert(static_alloc_seq()[196] == 125); assert(static_alloc_seq()[217] == 200);
        } else if i == 8 {
            assert(static_alloc_seq()[197] == 118); assert(static_alloc_seq()[218] == 198);
        } else if i == 9 {
            assert(static_alloc_seq()[198] == 112); assert(static_alloc_seq()[219] == 193);
        } else if i == 10 {
            assert(static_alloc_seq()[199] == 106); assert(static_alloc_seq()[220] == 188);
        } else if i == 11 {
            assert(static_alloc_seq()[200] == 100); assert(static_alloc_seq()[221] == 183);
        } else if i == 12 {
            assert(static_alloc_seq()[201] == 94); assert(static_alloc_seq()[222] == 178);
        } else if i == 13 {
            assert(static_alloc_seq()[202] == 87); assert(static_alloc_seq()[223] == 173);
        } else if i == 14 {
            assert(static_alloc_seq()[203] == 81); assert(static_alloc_seq()[224] == 168);
        } else if i == 15 {
            assert(static_alloc_seq()[204] == 75); assert(static_alloc_seq()[225] == 163);
        } else if i == 16 {
            assert(static_alloc_seq()[205] == 69); assert(static_alloc_seq()[226] == 158);
        } else if i == 17 {
            assert(static_alloc_seq()[206] == 63); assert(static_alloc_seq()[227] == 153);
        } else if i == 18 {
            assert(static_alloc_seq()[207] == 56); assert(static_alloc_seq()[228] == 148);
        } else if i == 19 {
            assert(static_alloc_seq()[208] == 45); assert(static_alloc_seq()[229] == 129);
        } else if i == 20 {
            assert(static_alloc_seq()[209] == 20); assert(static_alloc_seq()[230] == 104);
        }
    }
}

/// Every column of the static table grows from row to row.
proof fn lemma_static_alloc_monotone()
    ensures
        forall|r: int, i: int|
            0 <= r < ALLOC_ROWS - 1 && 0 <= i < MAX_BANDS ==> #[trigger] static_alloc_seq()[r * 21 + i]
                <= static_alloc_seq()[(r + 1) * 21 + i],
{
    lemma_static_alloc_row0();
    lemma_static_alloc_row1();
    lemma_static_alloc_row2();
    lemma_static_alloc_row3();
    lemma_static_alloc_row4();
    lemma_static_alloc_row5();
    lemma_static_alloc_row6();
    lemma_static_alloc_row7();
    lemma_static_alloc_row8();
    lemma_static_alloc_row9();
    assert forall|r: int, i: int|
        0 <= r < ALLOC_ROWS - 1 && 0 <= i < MAX_BANDS implies #[trigger] static_alloc_seq()[r * 21 + i]
        <= static_alloc_seq()[(r + 1) * 21 + i] by {
        if r == 0 {
            assert(static_alloc_seq()[0 * 21 + i] <= static_alloc_seq()[1 * 21 + i]);
        } else if r == 1 {
            assert(static_alloc_seq()[1 * 21 + i] <= static_alloc_seq()[2 * 21 + i]);
        } else if r == 2 {
            assert(static_alloc_seq()[2 * 21 + i] <= static_alloc_seq()[3 * 21 + i]);
        } else if r == 3 {
            assert(static_alloc_seq()[3 * 21 + i] <= static_alloc_seq()[4 * 21 + i]);
        } else if r == 4 {
            assert(static_alloc_seq()[4 * 21 + i] <= static_alloc_seq()[5 * 21 + i]);
        } else if r == 5 {
            assert(static_alloc_seq()[5 * 21 + i] <= static_alloc_seq()[6 * 21 + i]);
        } else if r == 6 {
            assert(static_alloc_seq()[6 * 21 + i] <= static_alloc_seq()[7 * 21 + i]);
        } else if r == 7 {
            assert(static_alloc_seq()[7 * 21 + i] <= static_alloc_seq()[8 * 21 + i]);
        } else if r == 8 {
            assert(static_alloc_seq()[8 * 21 + i] <= static_alloc_seq()[9 * 21 + i]);
        } else if r == 9 {
            assert(static_alloc_seq()[9 * 21 + i] <= static_alloc_seq()[10 * 21 + i]);
        }
    }
}


proof fn lemma_row_step(m: AllocModel, r: int, k: int)
    requires
        model_wf(m),
        0 <= r < ALLOC_ROWS - 1,
        0 <= k < MAX_BANDS,
    ensures
        0 <= trimmed_bits(m, r, k) <= trimmed_bits(m, r + 1, k),
{
    lemma_static_alloc_monotone();
    lemma_raw_bounds(m, r, k);
    lemma_raw_bounds(m, r + 1, k);
    lemma_pow2_small(m.lm + m.stereo);
    let n = freq_range_seq()[k] as int;
    let a = static_alloc_seq()[r * 21 + k] as int;
    let a2 = static_alloc_seq()[(r + 1) * 21 + k] as int;
    let p = pow2(m.lm + m.stereo) as int;
    assert(a <= a2);
    assert(n * a * p / 4 <= n * a2 * p / 4) by (nonlinear_arith)
        requires
            0 <= n,
            0 <= a <= a2,
            0 <= p,
    ;
}

/// Rows further down the static table ask for at least as much in every band.
proof fn lemma_row_bits_monotone(m: AllocModel, r1: int, r2: int)
    requires
        model_wf(m),
        0 <= r1 <= r2 < ALLOC_ROWS,
    ensures
        forall|k: int|
            0 <= k < MAX_BANDS ==> 0 <= #[trigger] row_bits(m, r1)[k] <= row_bits(m, r2)[k],
    decreases r2 - r1,
{
    if r1 < r2 {
        lemma_row_bits_monotone(m, r1 + 1, r2);
        assert forall|k: int| 0 <= k < MAX_BANDS implies 0 <= #[trigger] row_bits(m, r1)[k]
            <= row_bits(m, r2)[k] by {
            lemma_row_step(m, r1, k);
            assert(row_bits(m, r1 + 1)[k] <= row_bits(m, r2)[k]);
        }
    } else {
        assert forall|k: int| 0 <= k < MAX_BANDS implies 0 <= #[trigger] row_bits(m, r1)[k]
            <= row_bits(m, r2)[k] by {
            lemma_raw_bounds(m, r1, k);
        }
    }
}

/// Anywhere between a row and the next, the bands ask for no more than the next row does.
proof fn lemma_interp_below_next_row(m: AllocModel, r: int, f: int)
    requires
        model_wf(m),
        0 <= r < ALLOC_ROWS - 1,
        0 <= f < 64,
    ensures
        forall|k: int|
            0 <= k < MAX_BANDS ==> 0 <= #[trigger] interp_bits(m, r, f)[k] <= row_bits(m, r + 1)[k],
{
    lemma_interp_monotone(m, r, f, 64);
    assert forall|k: int| 0 <= k < MAX_BANDS implies 0 <= #[trigger] interp_bits(m, r, f)[k]
        <= row_bits(m, r + 1)[k] by {
        lemma_row_step(m, r, k);
        let st = step_bits(m, r, k);
        assert((64 * st) / 64 == st) by (nonlinear_arith);
        assert(interp_bits(m, r, 64)[k] == row_bits(m, r + 1)[k]);
    }
}

/// From a row on, the bands ask for at least what the row asks for.
proof fn lemma_interp_above_row(m: AllocModel, r: int, f: int)
    requires
        model_wf(m),
        1 <= r < ALLOC_ROWS,
        0 <= f < 64,
    ensures
        forall|k: int|
            0 <= k < MAX_BANDS ==> 0 <= #[trigger] row_bits(m, r)[k] <= interp_bits(m, r, f)[k],
{
    lemma_interp_monotone(m, r, 0, f);
    assert forall|k: int| 0 <= k < MAX_BANDS implies 0 <= #[trigger] row_bits(m, r)[k]
        <= interp_bits(m, r, f)[k] by {
        lemma_raw_bounds(m, r, k);
        assert(interp_bits(m, r, 0)[k] == row_bits(m, r)[k]);
    }
}

/// The allocation never shrinks when the budget grows: for budgets `a1 <= a2`, given for each
/// the row and fraction that the search settles on, as `bisect_allocation` establishes them,
/// the larger budget's total allocation is at least the smaller one's.
pub proof fn lemma_allocation_monotone_in_budget(
    m: AllocModel,
    r1: int,
    f1: int,
    a1: int,
    r2: int,
    f2: int,
    a2: int,
)
    requires
        model_wf(m),
        a1 <= a2,
        0 <= r1 < ALLOC_ROWS,
        0 <= f1 < 64,
        r1 == 0 || alloc_total(m, row_bits(m, r1)) <= a1,
        r1 == ALLOC_ROWS - 1 || alloc_total(m, row_bits(m, r1 + 1)) > a1,
        f1 == 0 || alloc_total(m, interp_bits(m, r1, f1)) <= a1,
        f1 == 63 || alloc_total(m, interp_bits(m, r1, f1 + 1)) > a1,
        0 <= r2 < ALLOC_ROWS,
        0 <= f2 < 64,
        r2 == 0 || alloc_total(m, row_bits(m, r2)) <= a2,
        r2 == ALLOC_ROWS - 1 || alloc_total(m, row_bits(m, r2 + 1)) > a2,
        f2 == 0 || alloc_total(m, interp_bits(m, r2, f2)) <= a2,
        f2 == 63 || alloc_total(m, interp_bits(m, r2, f2 + 1)) > a2,
    ensures
        alloc_total(m, interp_bits(m, r1, f1)) <= alloc_total(m, interp_bits(m, r2, f2)),
{
    if r1 > r2 {
        lemma_row_bits_monotone(m, r2 + 1, r1);
        lemma_alloc_monotone(m, row_bits(m, r2 + 1), row_bits(m, r1), m.start);
        assert(false);
    }
    if r1 == r2 {
        lemma_same_row_monotone(m, r1, f1, f2, a1, a2);
    } else {
        lemma_interp_below_next_row(m, r1, f1);
        lemma_row_bits_monotone(m, r1 + 1, r2);
        lemma_interp_above_row(m, r2, f2);
        let b0 = interp_bits(m, r1, f1);
        let b1 = row_bits(m, r1 + 1);
        let b2 = row_bits(m, r2);
        let b3 = interp_bits(m, r2, f2);
        lemma_alloc_monotone(m, b0, b1, m.start);
        lemma_alloc_monotone(m, b1, b2, m.start);
        lemma_alloc_monotone(m, b2, b3, m.start);
    }
}

} // verus!
