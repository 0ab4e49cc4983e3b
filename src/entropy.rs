use vstd::prelude::*;
use crate::bitread::{
    advance, bits_be, bits_rev, lemma_bits_be_bound, pow2, BitReadBE, ReverseBitReadLE,
};

verus! {

/// Largest packet, in bytes, that a decoder accepts; bit counts then fit 32-bit arithmetic.
pub const MAX_PACKET_BYTES: usize = 0x0100_0000;

/// The running bit count stops here, far past the end of any accepted packet.
pub const TOTAL_MAX: usize = 0x1000_0000;

pub const CODE_TOP: u32 = 0x8000_0000;

/// Renormalisation pulls a byte in whenever the range falls to this floor or below.
pub const CODE_BOT: u32 = 0x80_0000;

/// Everything a range decoder's behaviour depends on.
pub struct RangeState {
    pub data: Seq<u8>,
    /// Bits read from the front of the buffer.
    pub fpos: nat,
    /// Raw bits read from the tail of the buffer.
    pub rpos: nat,
    pub range: u32,
    pub value: u32,
    /// Bits consumed by the arithmetic coder, as counted by the coder.
    pub total: nat,
}

/// A state as it stands between two decode operations.
pub open spec fn state_wf(s: RangeState) -> bool {
    &&& s.data.len() <= MAX_PACKET_BYTES
    &&& s.fpos <= 8 * s.data.len()
    &&& s.rpos <= 8 * s.data.len()
    &&& CODE_BOT < s.range <= CODE_TOP
    &&& s.value < s.range
    &&& s.total <= TOTAL_MAX
}

/// A state before renormalisation: the range may have fallen to the floor.
pub open spec fn state_pre_wf(s: RangeState) -> bool {
    &&& s.data.len() <= MAX_PACKET_BYTES
    &&& s.fpos <= 8 * s.data.len()
    &&& s.rpos <= 8 * s.data.len()
    &&& 0 < s.range <= CODE_TOP
    &&& s.value < s.range
    &&& s.total <= TOTAL_MAX
}

/// Pulls in bytes (inverted) until the range is above the floor.
pub open spec fn renormalize(s: RangeState) -> RangeState
    decreases 0x1_0000_0000 - s.range,
{
    if 0 < s.range <= CODE_BOT {
        let b = bits_be(s.data, s.fpos, 8);
        renormalize(
            RangeState {
                fpos: advance(s.data, s.fpos, 8),
                value: ((s.value * 256 + (255 - b)) % 0x8000_0000) as u32,
                range: (s.range * 256) as u32,
                total: if s.total + 8 <= TOTAL_MAX {
                    s.total + 8
                } else {
                    TOTAL_MAX as nat
                },
                ..s
            },
        )
    } else {
        s
    }
}

/// The state of a decoder freshly started on `data`: a 7-bit seed, then renormalisation. The
/// count starts at 9 so that, once the first three bytes are in, one bit counts as used.
pub open spec fn start_state(data: Seq<u8>) -> RangeState {
    renormalize(
        RangeState {
            data,
            fpos: advance(data, 0, 7),
            rpos: 0,
            range: 128,
            value: (127 - bits_be(data, 0, 7)) as u32,
            total: 9,
        },
    )
}

/// The state with every bit of the packet counted as used.
pub open spec fn end_state(s: RangeState) -> RangeState {
    RangeState { total: 8 * s.data.len() + spec_ilog(s.range as nat), ..s }
}

/// Makes the binary decisions `logps` in turn: the final state and the decisions.
pub open spec fn logp_run(s: RangeState, logps: Seq<u32>) -> (RangeState, Seq<bool>)
    decreases logps.len(),
{
    if logps.len() == 0 {
        (s, seq![])
    } else {
        let (s1, b) = logp_step(s, logps[0]);
        let (s2, bs) = logp_run(s1, logps.drop_first());
        (s2, seq![b] + bs)
    }
}

/// Decoding depends on the bytes alone: decoders started on equal buffers and asked for the
/// same decisions decode the same values and end in the same state.
pub proof fn lemma_decoding_deterministic(a: Seq<u8>, b: Seq<u8>, logps: Seq<u32>)
    requires
        a == b,
    ensures
        start_state(a) == start_state(b),
        logp_run(start_state(a), logps) == logp_run(start_state(b), logps),
{
}

/// A decision depends on the decoder's state alone: equal states give equal decisions and
/// equal next states, with no state hidden elsewhere.
pub proof fn lemma_decision_deterministic(s1: RangeState, s2: RangeState, logp: u32)
    requires
        s1 == s2,
    ensures
        logp_step(s1, logp) == logp_step(s2, logp),
        forall|total: nat, dist: Seq<usize>| #[trigger] icdf_step(s1, total, dist) == icdf_step(s2, total, dist),
{
}

/// Result of a binary decision whose "true" branch has probability `1/2^logp`.
pub open spec fn logp_step(s: RangeState, logp: u32) -> (RangeState, bool) {
    let scale = s.range >> logp;
    if scale > s.value {
        (renormalize(RangeState { range: scale, ..s }), true)
    } else {
        (
            renormalize(
                RangeState { range: (s.range - scale) as u32, value: (s.value - scale) as u32, ..s },
            ),
            false,
        )
    }
}

/// The scaled position of the value inside `[0, total)`, as the coder locates it.
pub open spec fn scaled_value(s: RangeState, total: nat) -> nat {
    let scale = s.range as nat / total;
    let t = s.value as nat / scale + 1;
    (total - if t < total {
        t
    } else {
        total
    }) as nat
}

/// The state after narrowing the interval to the symbol `[low, high)` of a `total`-sized model.
pub open spec fn update_step(s: RangeState, low: nat, high: nat, total: nat) -> RangeState {
    let scale = s.range as nat / total;
    let sub = scale * (total - high);
    renormalize(
        RangeState {
            value: (s.value - sub) as u32,
            range: if low != 0 {
                (scale * (high - low)) as u32
            } else {
                (s.range - sub) as u32
            },
            ..s
        },
    )
}

/// A symbol model: symbol `k` covers `[dist[k-1], dist[k])` out of `total`, with `dist[-1] = 0`.
pub struct ICDFContext {
    pub total: usize,
    pub dist: Vec<usize>,
}

impl ICDFContext {
    pub open spec fn wf(&self) -> bool {
        &&& 0 < self.total <= 0x8000
        &&& self.dist@.len() > 0
        &&& self.dist@.last() == self.total
        &&& forall|j: int| 0 <= j < self.dist@.len() ==> #[trigger] self.dist@[j] <= self.total
    }

    pub open spec fn low(&self, k: int) -> nat {
        if k > 0 {
            self.dist@[k - 1] as nat
        } else {
            0
        }
    }
}

/// `k` is the first index whose bound exceeds `fm`.
pub open spec fn first_above(dist: Seq<usize>, fm: nat, k: int) -> bool {
    &&& 0 <= k < dist.len()
    &&& dist[k] > fm
    &&& forall|j: int| 0 <= j < k ==> #[trigger] dist[j] <= fm
}

/// The symbol a model with bounds `dist` assigns to scaled position `fm`.
pub open spec fn symbol_of(dist: Seq<usize>, fm: nat) -> int {
    choose|k: int| first_above(dist, fm, k)
}

/// The bound below symbol `k`: `dist[k-1]`, or `0` for the first symbol.
pub open spec fn low_of(dist: Seq<usize>, k: int) -> nat {
    if k > 0 {
        dist[k - 1] as nat
    } else {
        0
    }
}

/// Decoding one symbol of the model `(total, dist)`: the next state and the symbol.
pub open spec fn icdf_step(s: RangeState, total: nat, dist: Seq<usize>) -> (RangeState, nat) {
    let k = symbol_of(dist, scaled_value(s, total));
    (update_step(s, low_of(dist, k), dist[k] as nat, total), k as nat)
}

/// Reading `n` raw bits from the tail: the next state and the bits.
pub open spec fn raw_step(s: RangeState, n: nat) -> (RangeState, nat) {
    (RangeState { rpos: advance(s.data, s.rpos, n), ..s }, bits_rev(s.data, s.rpos, n))
}

proof fn lemma_first_above_unique(dist: Seq<usize>, fm: nat, k: int)
    requires
        first_above(dist, fm, k),
    ensures
        symbol_of(dist, fm) == k,
{
    let c = symbol_of(dist, fm);
    assert(first_above(dist, fm, c));
    if c < k {
        assert(dist[c] <= fm);
    } else if c > k {
        assert(dist[k] <= fm);
    }
}

proof fn lemma_scale(range: int, total: int)
    requires
        CODE_BOT < range <= CODE_TOP,
        0 < total <= 0x8000,
    ensures
        0 < range / total,
        (range / total) * total <= range,
{
    let scale = range / total;
    assert(0 < scale) by (nonlinear_arith)
        requires
            CODE_BOT < range,
            0 < total <= 0x8000,
            scale == range / total,
    ;
    assert(scale * total <= range) by (nonlinear_arith)
        requires
            0 < total,
            scale == range / total,
    ;
}

proof fn lemma_update_sound(s: RangeState, total: nat, low: nat, high: nat)
    requires
        state_wf(s),
        0 < total <= 0x8000,
        low <= scaled_value(s, total) < high <= total,
    ensures
        ({
            let scale = s.range as nat / total;
            let sub = scale * (total - high);
            let r2 = if low != 0 {
                scale * (high - low)
            } else {
                s.range - sub
            };
            &&& 0 < scale
            &&& scale * total <= s.range
            &&& 0 <= sub <= s.value
            &&& s.value - sub < r2
            &&& 0 < r2 <= s.range
        }),
{
    let range = s.range as int;
    let value = s.value as int;
    let total = total as int;
    let low = low as int;
    let high = high as int;
    lemma_scale(range, total);
    let scale = range / total;
    let sv = value / scale;
    assert(value < scale * (sv + 1) && scale * sv <= value && 0 <= sv) by (nonlinear_arith)
        requires
            0 < scale,
            0 <= value,
            sv == value / scale,
    ;
    let t = sv + 1;
    assert(total - high <= sv);
    assert(scale * (total - high) <= scale * sv) by (nonlinear_arith)
        requires
            0 < scale,
            total - high <= sv,
            0 <= total - high,
    ;
    assert(0 <= scale * (total - high)) by (nonlinear_arith)
        requires
            0 < scale,
            0 <= total - high,
    ;
    if low != 0 {
        assert(sv + 1 <= total - low);
        assert(scale * (sv + 1) <= scale * (total - low)) by (nonlinear_arith)
            requires
                0 < scale,
                sv + 1 <= total - low,
        ;
        assert(scale * (high - low) == scale * (total - low) - scale * (total - high))
            by (nonlinear_arith);
        assert(scale * (high - low) > 0) by (nonlinear_arith)
            requires
                0 < scale,
                high > low,
        ;
        assert(scale * (high - low) <= scale * total) by (nonlinear_arith)
            requires
                0 < scale,
                high - low <= total,
        ;
    } else {
        assert(scale * high > 0) by (nonlinear_arith)
            requires
                0 < scale,
                high > 0,
        ;
        assert(scale * (total - high) == scale * total - scale * high) by (nonlinear_arith);
    }
}

proof fn lemma_shift_in(value: u32, v: u32)
    by (bit_vector)
    requires
        value < 0x80_0000,
        v < 256,
    ensures
        ((value << 8u32) | v) & 0x7fff_ffffu32 == value * 256 + v,
        value * 256 + v < 0x8000_0000,
{
}

proof fn lemma_flip(b: u32)
    by (bit_vector)
    requires
        b < 256,
    ensures
        b ^ 255u32 == 255 - b,
{
}

proof fn lemma_shl8(r: u32)
    by (bit_vector)
    requires
        r <= 0x80_0000,
    ensures
        r << 8u32 == r * 256,
{
}

proof fn lemma_shr_le(r: u32, n: u32)
    by (bit_vector)
    ensures
        r >> n <= r,
        r >> 0u32 == r,
{
}

/// Number of significant bits of `x`: `0` for `0`, else one more than the index of its top bit.
pub open spec fn spec_ilog(x: nat) -> nat
    decreases x,
{
    if x == 0 {
        0
    } else {
        1 + spec_ilog(x / 2)
    }
}

proof fn lemma_shr_step(x: u32, k: u32)
    by (bit_vector)
    requires
        k < 31,
    ensures
        x >> 1u32 == x / 2,
        (x >> 1u32) >> k == x >> (k + 1),
{
}

/// The top bit of a nonzero `x` stands at index `spec_ilog(x) - 1`.
proof fn lemma_ilog_top(x: u32)
    requires
        x > 0,
    ensures
        1 <= spec_ilog(x as nat) <= 32,
        x >> ((spec_ilog(x as nat) - 1) as u32) == 1,
    decreases x,
{
    lemma_shr_step(x, 0);
    if x == 1 {
        assert(spec_ilog(0) == 0);
        assert(1u32 >> 0u32 == 1) by (bit_vector);
    } else {
        let h = (x / 2) as u32;
        lemma_ilog_top(h);
        let l = spec_ilog(h as nat);
        assert(l < 32) by {
            assert(x >> 1u32 == h);
            lemma_top_below(x, (l - 1) as u32);
        }
        lemma_shr_step(x, (l - 1) as u32);
    }
}

proof fn lemma_top_below(x: u32, k: u32)
    by (bit_vector)
    requires
        (x >> 1u32) >> k == 1,
    ensures
        k < 31,
{
}

proof fn lemma_rq15_start(range: u32, l: u32)
    by (bit_vector)
    requires
        0x80_0000 < range <= 0x8000_0000,
        1 <= l <= 32,
        range >> ((l - 1) as u32) == 1,
    ensures
        24 <= l,
        0x8000 <= range >> ((l - 16) as u32) < 0x10000,
{
}

proof fn lemma_rq15_step(r: u64)
    by (bit_vector)
    requires
        0x8000 <= r < 0x10000,
    ensures
        (((r * r) as u64) >> 15u64) >> 16u64 <= 1,
        0x8000 <= (((r * r) as u64) >> 15u64) >> ((((r * r) as u64) >> 15u64) >> 16u64) < 0x10000,
{
}

/// Three squaring steps that refine an integer log2 to eighths of a bit.
pub open spec fn frac_refine(r: u64, l: nat, n: nat) -> nat
    decreases n,
{
    if n == 0 {
        l
    } else {
        let r2 = ((r * r) as u64) >> 15u64;
        let b = r2 >> 16u64;
        frac_refine(r2 >> b, 2 * l + b as nat, (n - 1) as nat)
    }
}

proof fn lemma_frac_refine_bound(r: u64, l: nat, n: nat)
    requires
        0x8000 <= r < 0x10000,
    ensures
        pow2(n) * l <= frac_refine(r, l, n) <= pow2(n) * l + pow2(n) - 1,
    decreases n,
{
    if n > 0 {
        lemma_rq15_step(r);
        let r2 = ((r * r) as u64) >> 15u64;
        let b = r2 >> 16u64;
        lemma_frac_refine_bound(r2 >> b, 2 * l + b as nat, (n - 1) as nat);
        let p = pow2((n - 1) as nat);
        assert(pow2(n) == 2 * p);
        assert(p * (2 * l + b as nat) <= p * (2 * l + 1)) by (nonlinear_arith)
            requires
                b <= 1,
        ;
        assert(p * (2 * l + b as nat) >= p * (2 * l)) by (nonlinear_arith);
        assert(p * (2 * l + 1) == 2 * p * l + p) by (nonlinear_arith);
        assert(p * (2 * l) == 2 * p * l) by (nonlinear_arith);
        assert(pow2(n) * l == 2 * p * l) by (nonlinear_arith)
            requires
                pow2(n) == 2 * p,
        ;
    } else {
        assert(pow2(0) == 1);
    }
}

/// The fractional estimate stays within the eighth-bit steps of the integer log.
pub proof fn lemma_log2_frac_bound(range: u32)
    requires
        CODE_BOT < range <= CODE_TOP,
    ensures
        8 * spec_ilog(range as nat) <= log2_frac(range) <= 8 * spec_ilog(range as nat) + 7,
{
    lemma_ilog_top(range);
    let l = spec_ilog(range as nat);
    lemma_rq15_start(range, l as u32);
    reveal_with_fuel(pow2, 4);
    lemma_frac_refine_bound((range >> ((l - 16) as u32)) as u64, l, 3);
}

/// The coder's estimate of `8 * log2(range)`, rounded as RFC 6716's `ec_tell_frac` does.
pub open spec fn log2_frac(range: u32) -> nat {
    let l = spec_ilog(range as nat);
    frac_refine((range >> ((l - 16) as u32)) as u64, l, 3)
}

pub open spec fn sat_sub(a: nat, b: nat) -> nat {
    if a >= b {
        (a - b) as nat
    } else {
        0
    }
}

/// Bits used so far, rounded up to a whole bit.
pub open spec fn tell_of(s: RangeState) -> nat {
    sat_sub(s.total, spec_ilog(s.range as nat))
}

/// Bits used so far, in eighths of a bit.
pub open spec fn tell_frac_of(s: RangeState) -> nat {
    sat_sub(8 * s.total, log2_frac(s.range))
}

/// Bits of the packet not yet used.
pub open spec fn available_of(s: RangeState) -> nat {
    sat_sub(8 * s.data.len(), tell_of(s))
}

/// Eighths of a bit of the packet not yet used.
pub open spec fn available_frac_of(s: RangeState) -> nat {
    sat_sub(64 * s.data.len(), tell_frac_of(s))
}

/// Integer log2 as the coder counts it: the number of significant bits of `x`.
pub fn ilog(x: u32) -> (r: u32)
    ensures
        r as nat == spec_ilog(x as nat),
        r <= 32,
{
    let mut v = x;
    let mut n: u32 = 0;
    proof {
        if x > 0 {
            lemma_ilog_top(x);
        }
    }
    while v > 0
        invariant
            n + spec_ilog(v as nat) == spec_ilog(x as nat),
            spec_ilog(x as nat) <= 32,
        decreases v,
    {
        v = v / 2;
        n = n + 1;
    }
    n
}

proof fn lemma_uniform_total(x: u32, l: u32)
    by (bit_vector)
    requires
        9 <= l <= 32,
        x >> ((l - 1) as u32) == 1,
    ensures
        (x >> ((l - 8) as u32)) < 256,
{
}

proof fn lemma_small_log(x: u32, l: u32)
    by (bit_vector)
    requires
        1 <= l <= 8,
        x >> ((l - 1) as u32) == 1,
    ensures
        x < 256,
{
}

proof fn lemma_shr15(x: u32)
    by (bit_vector)
    ensures
        x >> 15u32 == x / 32768,
{
}

proof fn lemma_uniform_join(k: u32, sh: u32)
    by (bit_vector)
    requires
        k < 256,
        sh <= 24,
    ensures
        k << sh <= 0xffff_ffff,
{
}

/// Size of the arithmetic-coded part of a uniform value over `[0, n)`, and how many raw bits
/// follow it.
pub open spec fn uniform_split(n: u32) -> (u32, u32) {
    let bits = spec_ilog((n - 1) as nat);
    if bits > 8 {
        (((((n - 1) as u32) >> ((bits - 8) as u32)) + 1) as u32, (bits - 8) as u32)
    } else {
        (n, 0)
    }
}

/// Decoding a uniform value over `[0, n)`: the next state and the value.
pub open spec fn uniform_step(s: RangeState, n: u32) -> (RangeState, nat) {
    let (total, extra) = uniform_split(n);
    let k = scaled_value(s, total as nat);
    let mid = update_step(s, k, k + 1, total as nat);
    let v = ((k as u32) << extra | bits_rev(mid.data, mid.rpos, extra as nat) as u32) as nat;
    (
        RangeState { rpos: advance(mid.data, mid.rpos, extra as nat), ..mid },
        if v < n {
            v
        } else {
            (n - 1) as nat
        },
    )
}

/// First frequency of the decaying part of a Laplace model whose centre has frequency `fs0`.
pub open spec fn laplace_freq1(fs0: nat, decay: nat) -> nat {
    ((32768 - 32 - fs0) * (16384 - decay) / 32768) as nat
}

/// Walks the decaying part of a Laplace model until the symbol holding `fm` is reached or the
/// frequencies have decayed to the minimum; gives `(fl, fs, magnitude)`.
pub open spec fn laplace_search(fm: nat, fl: nat, fs: nat, decay: nat, val: nat) -> (nat, nat, nat)
    decreases fm - fl,
{
    if fs > 1 && fm >= fl + 2 * fs {
        laplace_search(fm, fl + 2 * fs, ((2 * fs - 2) * decay / 32768 + 1) as nat, decay, val + 1)
    } else {
        (fl, fs, val)
    }
}

/// The residual a Laplace model decodes at scaled position `fm`, with the symbol's `[low, high)`.
pub open spec fn laplace_outcome(fm: nat, fs0: nat, decay: nat) -> (int, nat, nat) {
    if fm < fs0 {
        (0, 0, fs0)
    } else {
        let (fl1, fs, v1) = laplace_search(fm, fs0, laplace_freq1(fs0, decay) + 1, decay, 1);
        let di: nat = if fs <= 1 {
            ((fm - fl1) / 2) as nat
        } else {
            0
        };
        let fl = fl1 + 2 * di;
        let v = v1 + di;
        if fm < fl + fs {
            (-v, fl, if fl + fs < 32768 {
                fl + fs
            } else {
                32768
            })
        } else {
            (v as int, fl + fs, if fl + 2 * fs < 32768 {
                fl + 2 * fs
            } else {
                32768
            })
        }
    }
}

/// Decoding a Laplace residual: the next state and the residual.
pub open spec fn laplace_step(s: RangeState, fs0: nat, decay: nat) -> (RangeState, int) {
    let fm = scaled_value(s, 32768);
    let (v, fl, fh) = laplace_outcome(fm, fs0, decay);
    (update_step(s, fl, fh, 32768), v)
}

/// `x < 2^k` has at most `k` significant bits.
pub proof fn lemma_ilog_le(x: nat, k: nat)
    requires
        x < pow2(k),
    ensures
        spec_ilog(x) <= k,
    decreases k,
{
    if x > 0 {
        lemma_ilog_le(x / 2, (k - 1) as nat);
    }
}

proof fn lemma_or_zero(k: u32)
    by (bit_vector)
    ensures
        k << 0u32 | 0u32 == k,
{
}

/// The range decoder of RFC 6716: an arithmetic decoder over the front of a packet and a
/// raw-bit reader over its tail.
pub struct RangeDecoder<'a> {
    bits: BitReadBE<'a>,
    revs: ReverseBitReadLE<'a>,
    range: u32,
    value: u32,
    total: usize,
}

impl<'a> View for RangeDecoder<'a> {
    type V = RangeState;

    closed spec fn view(&self) -> RangeState {
        RangeState {
            data: self.bits.data(),
            fpos: self.bits.pos(),
            rpos: self.revs.pos(),
            range: self.range,
            value: self.value,
            total: self.total as nat,
        }
    }
}

impl<'a> RangeDecoder<'a> {
    closed spec fn cursors_wf(&self) -> bool {
        &&& self.bits.wf()
        &&& self.revs.wf()
        &&& self.revs.data() == self.bits.data()
    }

    /// A well-formed decoder's state keeps the range invariant of the coder.
    pub proof fn lemma_state_wf(&self)
        requires
            self.wf(),
        ensures
            state_wf(self@),
    {
    }

    /// The decoder stands between two operations.
    pub closed spec fn wf(&self) -> bool {
        &&& self.cursors_wf()
        &&& state_wf(self@)
    }

    fn normalize(&mut self)
        requires
            old(self).cursors_wf(),
            state_pre_wf(old(self)@),
        ensures
            final(self).wf(),
            final(self)@ == renormalize(old(self)@),
    {
        let ghost start = self@;
        while self.range <= CODE_BOT
            invariant
                self.cursors_wf(),
                state_pre_wf(self@),
                renormalize(self@) == renormalize(start),
            decreases 0x1_0000_0000 - self.range,
        {
            let ghost before = self@;
            let b = self.bits.get_bits_32(8);
            proof {
                lemma_bits_be_bound(before.data, before.fpos, 8);
                reveal_with_fuel(pow2, 9);
                lemma_flip(b);
                lemma_shift_in(self.value, b ^ 255u32);
                lemma_shl8(self.range);
            }
            let v = b ^ 255u32;
            self.value = ((self.value << 8u32) | v) & (CODE_TOP - 1);
            self.range = self.range << 8u32;
            self.total = if self.total <= TOTAL_MAX - 8 {
                self.total + 8
            } else {
                TOTAL_MAX
            };
        }
    }

    /// Starts decoding `buf`.
    pub fn new(buf: &'a [u8]) -> (r: Self)
        requires
            buf@.len() <= MAX_PACKET_BYTES,
        ensures
            r.wf(),
            r@ == start_state(buf@),
    {
        let mut bits = BitReadBE::new(buf);
        let seed = bits.get_bits_32(7);
        proof {
            lemma_bits_be_bound(buf@, 0, 7);
            reveal_with_fuel(pow2, 8);
        }
        let mut r = RangeDecoder {
            bits,
            revs: ReverseBitReadLE::new(buf),
            range: 128,
            value: 127 - seed,
            total: 9,
        };
        r.normalize();
        r
    }

    /// Decodes a binary decision whose "true" branch has probability `1/2^logp`.
    pub fn decode_logp(&mut self, logp: usize) -> (r: bool)
        requires
            old(self).wf(),
            logp < 32,
        ensures
            final(self).wf(),
            (final(self)@, r) == logp_step(old(self)@, logp as u32),
            logp == 0 ==> r,
    {
        proof {
            lemma_shr_le(self.range, logp as u32);
        }
        let scale = self.range >> (logp as u32);
        let k = if scale > self.value {
            self.range = scale;
            true
        } else {
            self.range = self.range - scale;
            self.value = self.value - scale;
            false
        };
        self.normalize();
        k
    }

    /// The scale of a `total`-sized model and the scaled position of the value in it.
    fn get_scale_symbol(&self, total: u32) -> (r: (u32, u32))
        requires
            self.wf(),
            0 < total <= 0x8000,
        ensures
            r.0 as nat == self@.range as nat / total as nat,
            r.1 as nat == scaled_value(self@, total as nat),
            r.1 < total,
    {
        proof {
            lemma_scale(self.range as int, total as int);
            let sc = self.range as int / total as int;
            assert(0 <= self.value as int / sc) by (nonlinear_arith)
                requires
                    0 < sc,
            ;
        }
        let scale = self.range / total;
        let t = self.value / scale + 1;
        let m = if t < total {
            t
        } else {
            total
        };
        (scale, total - m)
    }

    /// Narrows the interval to `[low, high)` out of `total` and renormalises.
    fn update(&mut self, scale: u32, low: u32, high: u32, total: u32)
        requires
            old(self).wf(),
            0 < total <= 0x8000,
            scale as nat == old(self)@.range as nat / total as nat,
            low <= scaled_value(old(self)@, total as nat) < high <= total,
        ensures
            final(self).wf(),
            final(self)@ == update_step(old(self)@, low as nat, high as nat, total as nat),
    {
        proof {
            lemma_update_sound(self@, total as nat, low as nat, high as nat);
        }
        let s = scale * (total - high);
        self.value = self.value - s;
        self.range = if low != 0 {
            scale * (high - low)
        } else {
            self.range - s
        };
        self.normalize();
    }

    /// Decodes one symbol of `icdf`.
    pub fn decode_icdf(&mut self, icdf: &ICDFContext) -> (r: usize)
        requires
            old(self).wf(),
            icdf.wf(),
        ensures
            final(self).wf(),
            first_above(icdf.dist@, scaled_value(old(self)@, icdf.total as nat), r as int),
            (final(self)@, r as nat) == icdf_step(old(self)@, icdf.total as nat, icdf.dist@),
            icdf.low(r as int) <= scaled_value(old(self)@, icdf.total as nat),
            final(self)@ == update_step(
                old(self)@,
                icdf.low(r as int),
                icdf.dist@[r as int] as nat,
                icdf.total as nat,
            ),
    {
        let total = icdf.total as u32;
        let (scale, sym) = self.get_scale_symbol(total);
        let mut k: usize = 0;
        while k < icdf.dist.len() - 1 && icdf.dist[k] <= sym as usize
            invariant
                icdf.wf(),
                sym < icdf.total,
                0 <= k < icdf.dist@.len(),
                forall|j: int| 0 <= j < k ==> #[trigger] icdf.dist@[j] <= sym,
            decreases icdf.dist@.len() - k,
        {
            k = k + 1;
        }
        let high = icdf.dist[k];
        let low = if k > 0 {
            icdf.dist[k - 1]
        } else {
            0
        };
        self.update(scale, low as u32, high as u32, total);
        proof {
            lemma_first_above_unique(icdf.dist@, sym as nat, k as int);
        }
        k
    }

    /// Bits used so far, rounded up to a whole bit.
    pub fn tell(&self) -> (r: usize)
        requires
            self.wf(),
        ensures
            r as nat == tell_of(self@),
    {
        let l = ilog(self.range) as usize;
        if self.total >= l {
            self.total - l
        } else {
            0
        }
    }

    /// Bits used so far, in eighths of a bit.
    pub fn tell_frac(&self) -> (r: usize)
        requires
            self.wf(),
        ensures
            r as nat == tell_frac_of(self@),
    {
        let l0 = ilog(self.range);
        proof {
            lemma_ilog_top(self.range);
            lemma_rq15_start(self.range, l0);
        }
        let mut lg: u64 = l0 as u64;
        let mut rq15: u64 = (self.range >> (l0 - 16)) as u64;
        let mut i: usize = 0;
        while i < 3
            invariant
                0x8000 <= rq15 < 0x10000,
                i <= 3,
                i == 0 ==> lg <= 32,
                i == 1 ==> lg <= 65,
                i == 2 ==> lg <= 131,
                lg <= 263,
                frac_refine(rq15, lg as nat, (3 - i) as nat) == log2_frac(self.range),
            decreases 3 - i,
        {
            proof {
                lemma_rq15_step(rq15);
                assert(rq15 * rq15 < 0x1_0000_0000) by (nonlinear_arith)
                    requires
                        rq15 < 0x10000,
                ;
            }
            rq15 = (rq15 * rq15) >> 15u64;
            let lastbit = rq15 >> 16u64;
            lg = lg * 2 + lastbit;
            rq15 = rq15 >> lastbit;
            i = i + 1;
        }
        let lg = lg as usize;
        if 8 * self.total >= lg {
            8 * self.total - lg
        } else {
            0
        }
    }

    /// Bits of the packet not yet used.
    pub fn available(&self) -> (r: usize)
        requires
            self.wf(),
        ensures
            r as nat == available_of(self@),
            r <= 8 * MAX_PACKET_BYTES,
    {
        let t = self.tell();
        let n = 8 * self.bits.len();
        if n >= t {
            n - t
        } else {
            0
        }
    }

    /// Eighths of a bit of the packet not yet used.
    pub fn available_frac(&self) -> (r: usize)
        requires
            self.wf(),
        ensures
            r as nat == available_frac_of(self@),
            r <= 64 * MAX_PACKET_BYTES,
    {
        let t = self.tell_frac();
        let n = 64 * self.bits.len();
        if n >= t {
            n - t
        } else {
            0
        }
    }

    /// Pretends that every bit of the packet has been used.
    pub fn to_end(&mut self)
        requires
            old(self).wf(),
        ensures
            final(self).wf(),
            final(self)@ == end_state(old(self)@),
            tell_of(final(self)@) == 8 * final(self)@.data.len(),
            available_of(final(self)@) == 0,
            available_frac_of(final(self)@) <= 7,
    {
        proof {
            lemma_log2_frac_bound(self.range);
        }
        let l = ilog(self.range) as usize;
        self.total = 8 * self.bits.len() + l;
    }

    /// Reads `n` raw bits from the tail of the packet.
    pub fn rawbits(&mut self, n: usize) -> (r: usize)
        requires
            old(self).wf(),
            n <= 32,
        ensures
            final(self).wf(),
            (final(self)@, r as nat) == raw_step(old(self)@, n as nat),
    {
        self.revs.get_bits_32(n) as usize
    }

    /// Decodes a value uniformly distributed over `[0, n)`: its top 8 bits arithmetic-coded,
    /// the rest raw. A corrupt stream that points past `n - 1` gives `n - 1`.
    pub fn decode_uniform(&mut self, n: usize) -> (r: usize)
        requires
            old(self).wf(),
            1 <= n <= u32::MAX,
        ensures
            final(self).wf(),
            ({
                let (total, extra) = uniform_split(n as u32);
                let k = scaled_value(old(self)@, total as nat);
                let mid = update_step(old(self)@, k, k + 1, total as nat);
                &&& k < total
                &&& final(self)@ == (RangeState {
                    rpos: advance(mid.data, mid.rpos, extra as nat),
                    ..mid
                })
            }),
            (final(self)@, r as nat) == uniform_step(old(self)@, n as u32),
            r < n,
    {
        let n = n as u32;
        let bits = ilog(n - 1);
        proof {
            if n - 1 > 0 {
                lemma_ilog_top((n - 1) as u32);
            }
            if bits > 8 {
                lemma_uniform_total((n - 1) as u32, bits);
            } else if n - 1 > 0 {
                lemma_small_log((n - 1) as u32, bits);
            }
        }
        let total = if bits > 8 {
            ((n - 1) >> (bits - 8)) + 1
        } else {
            n
        };
        let extra = if bits > 8 {
            bits - 8
        } else {
            0
        };
        let (scale, k) = self.get_scale_symbol(total);
        self.update(scale, k, k + 1, total);
        let raw = self.rawbits(extra as usize) as u32;
        proof {
            lemma_uniform_join(k, extra);
            if n <= 256 {
                reveal_with_fuel(pow2, 9);
                lemma_ilog_le((n - 1) as nat, 8);
                reveal_with_fuel(bits_rev, 1);
                lemma_or_zero(k);
            }
        }
        let v = k << extra | raw;
        if v < n {
            v as usize
        } else {
            (n - 1) as usize
        }
    }

    /// Decodes a signed residual from a Laplace model with centre frequency `fs0` (in 1/32768)
    /// and decay `decay` (in 1/16384), as RFC 6716's `ec_laplace_decode` does.
    pub fn decode_laplace(&mut self, fs0: u32, decay: u32) -> (r: i32)
        requires
            old(self).wf(),
            fs0 <= 32736,
            decay <= 16384,
        ensures
            final(self).wf(),
            ({
                let fm = scaled_value(old(self)@, 32768);
                let (v, fl, fh) = laplace_outcome(fm, fs0 as nat, decay as nat);
                &&& r == v
                &&& fl <= fm < fh <= 32768
                &&& final(self)@ == update_step(old(self)@, fl, fh, 32768)
            }),
            (final(self)@, r as int) == laplace_step(old(self)@, fs0 as nat, decay as nat),
    {
        let (scale, fm) = self.get_scale_symbol(32768);
        let mut val: u32 = 0;
        let mut fl: u32 = 0;
        let mut fs: u32 = fs0;
        let mut neg = false;
        if fm >= fs0 {
            proof {
                assert((32768 - 32 - fs0) * (16384 - decay) <= 32768 * 16384) by (nonlinear_arith)
                    requires
                        fs0 <= 32736,
                        decay <= 16384,
                ;
                lemma_shr15(((32768 - 32 - fs0) * (16384 - decay)) as u32);
            }
            val = 1;
            fl = fs0;
            fs = ((32768 - 32 - fs0) * (16384 - decay) >> 15) + 1;
            let ghost fs1 = fs;
            while fs > 1 && fm >= fl + 2 * fs
                invariant
                    fl <= fm < 32768,
                    1 <= fs <= 16385,
                    1 <= val <= fl + 1,
                    decay <= 16384,
                    fs1 == laplace_freq1(fs0 as nat, decay as nat) + 1,
                    laplace_search(fm as nat, fl as nat, fs as nat, decay as nat, val as nat)
                        == laplace_search(fm as nat, fs0 as nat, fs1 as nat, decay as nat, 1),
                decreases fm - fl,
            {
                proof {
                    assert((2 * fs - 2) * decay <= 32768 * 16384) by (nonlinear_arith)
                        requires
                            fs <= 16385,
                            decay <= 16384,
                            fs >= 1,
                    ;
                    lemma_shr15(((2 * fs - 2) * decay) as u32);
                }
                fl = fl + 2 * fs;
                fs = ((2 * fs - 2) * decay >> 15) + 1;
                val = val + 1;
            }
            if fs <= 1 {
                proof {
                    lemma_shr_step((fm - fl) as u32, 0);
                }
                let di = (fm - fl) >> 1;
                val = val + di;
                fl = fl + 2 * di;
            }
            if fm < fl + fs {
                neg = true;
            } else {
                fl = fl + fs;
            }
        }
        let fh = if fl + fs < 32768 {
            fl + fs
        } else {
            32768
        };
        self.update(scale, fl, fh, 32768);
        if neg {
            -(val as i32)
        } else {
            val as i32
        }
    }
}

} // verus!
