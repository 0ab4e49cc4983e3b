use vstd::prelude::*;
use crate::allocation::{
    alloc_model, alloc_total, band_alloc, bisect_allocation, boost_prefix, cap_value, caps_seq,
    compute_caps, compute_thresholds, compute_trim_offsets, decode_boosts, interp_bits, ints,
    reserve_spec, row_bits, thresh_seq, trim_seq, ALLOC_ROWS,
};
use crate::bitread::{lemma_bits_rev_bound, lemma_pow2_mono, pow2};
use crate::entropy::{
    available_frac_of, available_of, end_state, icdf_step, ilog, laplace_step, logp_step, raw_step,
    spec_ilog, uniform_step, RangeDecoder, RangeState,
};
use crate::tables::{
    coarse_energy_inter, coarse_energy_inter_seq, coarse_energy_intra, coarse_energy_intra_seq,
    model_alloc_trim, model_energy_small, model_spread, model_tapset, tf_select,
    tf_select_seq, MAX_BANDS,
};

verus! {

/// Samples in the shortest block.
pub const SHORT_BLOCKSIZE: usize = 120;

/// Shortest postfilter period.
pub const MIN_PERIOD: usize = 15;

pub const SPREAD_NONE: usize = 0;

pub const SPREAD_LIGHT: usize = 1;

pub const SPREAD_NORMAL: usize = 2;

pub const SPREAD_AGGRESSIVE: usize = 3;

/// Postfilter parameters decoded for the coming frame.
#[derive(Clone, Copy, Debug, PartialEq, Eq, Structural)]
pub struct PostFilter {
    /// Pitch period in samples.
    pub period_new: usize,
    /// Gain in units of 1/32; zero when the postfilter is off.
    pub gain_new: usize,
    /// Which of the three tap sets.
    pub tapset_new: usize,
}

/// The postfilter is present: octave, period bits, gain bits and (if two bits remain) tapset.
pub open spec fn postfilter_step(s: RangeState) -> (RangeState, Option<PostFilter>) {
    let (s1, on) = logp_step(s, 1);
    if !on {
        (s1, None)
    } else {
        let (s2, octave) = uniform_step(s1, 6);
        let (s3, pbits) = raw_step(s2, 4 + octave);
        let (s4, gbits) = raw_step(s3, 3);
        let (s5, tapset) = if available_of(s4) >= 2 {
            icdf_step(s4, 4, seq![2usize, 3, 4])
        } else {
            (s4, 0)
        };
        let period = 16 * pow2(octave) + pbits - 1;
        (
            s5,
            Some(
                PostFilter {
                    period_new: if period > MIN_PERIOD {
                        period as usize
                    } else {
                        MIN_PERIOD
                    },
                    gain_new: (3 * (gbits + 1)) as usize,
                    tapset_new: tapset as usize,
                },
            ),
        )
    }
}

/// Decodes the postfilter flag and, when set, its parameters.
pub fn parse_postfilter(rd: &mut RangeDecoder) -> (r: Option<PostFilter>)
    requires
        old(rd).wf(),
    ensures
        final(rd).wf(),
        (final(rd)@, r) == postfilter_step(old(rd)@),
{
    if rd.decode_logp(1) {
        let octave = rd.decode_uniform(6);
        let ghost s2 = rd@;
        let pbits = rd.rawbits(4 + octave);
        let ghost s3 = rd@;
        let gbits = rd.rawbits(3);
        proof {
            lemma_bits_rev_bound(s2.data, s2.rpos, (4 + octave) as nat);
            lemma_pow2_mono((4 + octave) as nat, 9);
            reveal_with_fuel(pow2, 10);
        }
        let tapset = if rd.available() >= 2 {
            rd.decode_icdf(&model_tapset())
        } else {
            0
        };
        let mut base: usize = 16;
        let mut o: usize = 0;
        while o < octave
            invariant
                o <= octave,
                octave < 6,
                base == 16 * pow2(o as nat),
                base <= 16 * 32,
            decreases octave - o,
        {
            proof {
                lemma_pow2_mono((o + 1) as nat, 5);
                reveal_with_fuel(pow2, 6);
            }
            base = base * 2;
            o = o + 1;
        }
        let period = base + pbits - 1;
        proof {
            lemma_bits_rev_bound(s3.data, s3.rpos, 3);
            reveal_with_fuel(pow2, 4);
        }
        Some(
            PostFilter {
                period_new: if period > MIN_PERIOD {
                    period
                } else {
                    MIN_PERIOD
                },
                gain_new: 3 * (gbits + 1),
                tapset_new: tapset,
            },
        )
    } else {
        None
    }
}

/// Zig-zag mapping of `0, 1, 2, 3, ...` to `0, -1, 1, -2, ...`.
pub open spec fn zigzag(v: nat) -> int {
    if v % 2 == 1 {
        -((v / 2) as int) - 1
    } else {
        (v / 2) as int
    }
}

/// Laplace parameter `k` of band `k / 2` in the intra or inter energy model.
pub open spec fn energy_model(intra: bool, lm: nat, k: int) -> nat {
    if intra {
        coarse_energy_intra_seq()[lm * 42 + k] as nat
    } else {
        coarse_energy_inter_seq()[lm * 42 + k] as nat
    }
}

/// One band's coarse-energy residual: a Laplace residual with 15 bits to spare, a small
/// three-symbol model with fewer, `-1` with none.
pub open spec fn coarse_band_step(s: RangeState, intra: bool, lm: nat, i: int) -> (RangeState, int) {
    let avail = available_of(s);
    if avail >= 15 {
        let k = 2 * if i < 20 {
            i
        } else {
            20
        };
        laplace_step(s, energy_model(intra, lm, k) * 128, energy_model(intra, lm, k + 1) * 64)
    } else if avail >= 1 {
        let (s2, v) = icdf_step(s, 4, seq![2usize, 3, 4]);
        (s2, zigzag(v))
    } else {
        (s, -1)
    }
}

/// Residuals of bands `[0, n)` for both channels, the channels interleaved band by band; bands
/// outside `[start, end)`, and the second channel of a mono packet, read nothing and give `0`.
pub open spec fn coarse_prefix(
    s: RangeState,
    intra: bool,
    lm: nat,
    stereo: bool,
    start: int,
    end: int,
    n: nat,
) -> (RangeState, Seq<int>, Seq<int>)
    decreases n,
{
    if n == 0 {
        (s, seq![], seq![])
    } else {
        let (s1, a, b) = coarse_prefix(s, intra, lm, stereo, start, end, (n - 1) as nat);
        let i = n - 1;
        if start <= i < end {
            let (s2, v0) = coarse_band_step(s1, intra, lm, i);
            let (s3, v1) = if stereo {
                coarse_band_step(s2, intra, lm, i)
            } else {
                (s2, 0)
            };
            (s3, a.push(v0), b.push(v1))
        } else {
            (s1, a.push(0), b.push(0))
        }
    }
}

/// With no bit left, the coarse-energy stage reads nothing.
proof fn lemma_coarse_idle(
    s: RangeState,
    intra: bool,
    lm: nat,
    stereo: bool,
    start: int,
    end: int,
    n: nat,
)
    requires
        available_of(s) == 0,
    ensures
        coarse_prefix(s, intra, lm, stereo, start, end, n).0 == s,
    decreases n,
{
    if n > 0 {
        lemma_coarse_idle(s, intra, lm, stereo, start, end, (n - 1) as nat);
    }
}

fn coarse_band(rd: &mut RangeDecoder, intra: bool, lm: usize, i: usize) -> (r: i32)
    requires
        old(rd).wf(),
        lm < 4,
        i < MAX_BANDS,
    ensures
        final(rd).wf(),
        (final(rd)@, r as int) == coarse_band_step(old(rd)@, intra, lm as nat, i as int),
{
    let available = rd.available();
    if available >= 15 {
        let k = 2 * if i < 20 {
            i
        } else {
            20
        };
        let (f, d) = if intra {
            (coarse_energy_intra(lm, k), coarse_energy_intra(lm, k + 1))
        } else {
            (coarse_energy_inter(lm, k), coarse_energy_inter(lm, k + 1))
        };
        rd.decode_laplace(f as u32 * 128, d as u32 * 64)
    } else if available >= 1 {
        let v = rd.decode_icdf(&model_energy_small());
        let h = (v / 2) as i32;
        if v % 2 == 1 {
            -h - 1
        } else {
            h
        }
    } else {
        -1
    }
}

/// Decodes the coarse-energy residuals of both channels, band by band.
pub fn decode_coarse_energy(
    rd: &mut RangeDecoder,
    intra: bool,
    lm: usize,
    stereo: bool,
    start: usize,
    end: usize,
) -> (r: (Vec<i32>, Vec<i32>))
    requires
        old(rd).wf(),
        lm < 4,
        start <= end <= MAX_BANDS,
    ensures
        final(rd).wf(),
        (final(rd)@, ints(r.0@), ints(r.1@)) == coarse_prefix(
            old(rd)@,
            intra,
            lm as nat,
            stereo,
            start as int,
            end as int,
            MAX_BANDS as nat,
        ),
        r.0@.len() == MAX_BANDS,
        r.1@.len() == MAX_BANDS,
        available_of(old(rd)@) == 0 ==> final(rd)@ == old(rd)@,
{
    proof {
        if available_of(rd@) == 0 {
            lemma_coarse_idle(rd@, intra, lm as nat, stereo, start as int, end as int, MAX_BANDS as nat);
        }
    }
    let ghost s0 = rd@;
    let mut e0: Vec<i32> = Vec::new();
    let mut e1: Vec<i32> = Vec::new();
    let mut i: usize = 0;
    while i < MAX_BANDS
        invariant
            rd.wf(),
            lm < 4,
            start <= end <= MAX_BANDS,
            i <= MAX_BANDS,
            e0@.len() == i,
            e1@.len() == i,
            (rd@, ints(e0@), ints(e1@)) == coarse_prefix(
                s0,
                intra,
                lm as nat,
                stereo,
                start as int,
                end as int,
                i as nat,
            ),
        decreases MAX_BANDS - i,
    {
        if start <= i && i < end {
            let v0 = coarse_band(rd, intra, lm, i);
            let v1 = if stereo {
                coarse_band(rd, intra, lm, i)
            } else {
                0
            };
            e0.push(v0);
            e1.push(v1);
        } else {
            e0.push(0);
            e1.push(0);
        }
        proof {
            assert(ints(e0@) =~= coarse_prefix(s0, intra, lm as nat, stereo, start as int, end as int, (i + 1) as nat).1);
            assert(ints(e1@) =~= coarse_prefix(s0, intra, lm as nat, stereo, start as int, end as int, (i + 1) as nat).2);
        }
        i = i + 1;
    }
    (e0, e1)
}

/// Probability bits of the first band's tf flag.
pub open spec fn tf_bits_first(transient: bool) -> nat {
    if transient {
        2
    } else {
        4
    }
}

/// Probability bits of the later bands' tf flags.
pub open spec fn tf_bits_rest(transient: bool) -> nat {
    if transient {
        4
    } else {
        5
    }
}

/// The select bit will be decoded if it turns out to matter.
pub open spec fn tf_select_offered(s: RangeState, lm: nat, transient: bool) -> bool {
    lm != 0 && available_of(s) > tf_bits_first(transient)
}

/// Per-band tf flags of the first `n` coded bands, each the running xor of the decoded
/// toggles: `(state, running flag, any flag set, flags)`.
pub open spec fn tf_prefix(s: RangeState, transient: bool, select_bit: bool, n: nat) -> (
    RangeState,
    bool,
    bool,
    Seq<bool>,
)
    decreases n,
{
    if n == 0 {
        (s, false, false, seq![])
    } else {
        let (s1, diff, changed, flags) = tf_prefix(s, transient, select_bit, (n - 1) as nat);
        let field_bits = if n == 1 {
            tf_bits_first(transient)
        } else {
            tf_bits_rest(transient)
        };
        if available_of(s1) > field_bits + if select_bit {
            1nat
        } else {
            0nat
        } {
            let (s2, b) = logp_step(s1, field_bits as u32);
            let d = diff != b;
            (s2, d, changed || d, flags.push(d))
        } else {
            (s1, diff, changed, flags.push(diff))
        }
    }
}

/// With no bit left, the tf stage reads nothing.
proof fn lemma_tf_idle(s: RangeState, transient: bool, select_bit: bool, n: nat)
    requires
        available_of(s) == 0,
    ensures
        tf_prefix(s, transient, select_bit, n).0 == s,
    decreases n,
{
    if n > 0 {
        lemma_tf_idle(s, transient, select_bit, (n - 1) as nat);
    }
}

proof fn lemma_tf_prefix_len(s: RangeState, transient: bool, select_bit: bool, n: nat)
    ensures
        tf_prefix(s, transient, select_bit, n).3.len() == n,
    decreases n,
{
    if n > 0 {
        lemma_tf_prefix_len(s, transient, select_bit, (n - 1) as nat);
    }
}

pub open spec fn tf_select_value(lm: nat, transient: bool, select: bool, changed: bool) -> int {
    tf_select_seq()[(lm * 8 + (if transient {
        4int
    } else {
        0
    }) + (if select {
        2int
    } else {
        0
    }) + (if changed {
        1int
    } else {
        0
    }))] as int
}

/// The tf stage: flags of the coded bands, then the select bit where the two rows differ.
pub open spec fn tf_step(s: RangeState, lm: nat, transient: bool, start: int, end: int) -> (
    RangeState,
    Seq<int>,
) {
    let select_bit = tf_select_offered(s, lm, transient);
    let (s1, _diff, changed, flags) = tf_prefix(s, transient, select_bit, (end - start) as nat);
    let (s2, select) = if select_bit && tf_select_value(lm, transient, false, changed)
        != tf_select_value(lm, transient, true, changed) {
        logp_step(s1, 1)
    } else {
        (s1, false)
    };
    (
        s2,
        Seq::new(
            MAX_BANDS as nat,
            |i: int|
                if start <= i < end {
                    tf_select_value(lm, transient, select, flags[i - start])
                } else {
                    0
                },
        ),
    )
}

pub open spec fn tf_ints(v: Seq<i8>) -> Seq<int> {
    v.map_values(|x: i8| x as int)
}

fn tf_lookup(lm: usize, transient: bool, select: bool, changed: bool) -> (r: i8)
    requires
        lm < 4,
    ensures
        r as int == tf_select_value(lm as nat, transient, select, changed),
{
    tf_select(lm, transient as usize, select as usize, changed as usize)
}

/// Decodes the per-band time-frequency resolution changes.
pub fn decode_tf_changes(
    rd: &mut RangeDecoder,
    lm: usize,
    transient: bool,
    start: usize,
    end: usize,
) -> (r: Vec<i8>)
    requires
        old(rd).wf(),
        lm < 4,
        start <= end <= MAX_BANDS,
    ensures
        final(rd).wf(),
        (final(rd)@, tf_ints(r@)) == tf_step(old(rd)@, lm as nat, transient, start as int, end as int),
        r@.len() == MAX_BANDS,
        available_of(old(rd)@) == 0 ==> final(rd)@ == old(rd)@,
{
    proof {
        if available_of(rd@) == 0 {
            let sb = tf_select_offered(rd@, lm as nat, transient);
            lemma_tf_idle(rd@, transient, sb, (end - start) as nat);
        }
    }
    let ghost s0 = rd@;
    let bits0: usize = if transient {
        2
    } else {
        4
    };
    let bits1: usize = if transient {
        4
    } else {
        5
    };
    let mut available = rd.available();
    let select_bit = lm != 0 && available > bits0;
    let mut field_bits = bits0;
    let mut diff = false;
    let mut changed = false;
    let mut flags: Vec<bool> = Vec::new();
    let mut i: usize = start;
    while i < end
        invariant
            rd.wf(),
            start <= i <= end <= MAX_BANDS,
            select_bit == tf_select_offered(s0, lm as nat, transient),
            bits0 == tf_bits_first(transient),
            bits1 == tf_bits_rest(transient),
            field_bits == if i == start {
                bits0
            } else {
                bits1
            },
            available == available_of(rd@),
            (rd@, diff, changed, flags@) == tf_prefix(s0, transient, select_bit, (i - start) as nat),
        decreases end - i,
    {
        if available > field_bits + select_bit as usize {
            let b = rd.decode_logp(field_bits);
            diff = diff != b;
            available = rd.available();
            changed = changed || diff;
        }
        flags.push(diff);
        field_bits = bits1;
        i = i + 1;
    }
    let select = if select_bit && tf_lookup(lm, transient, false, changed) != tf_lookup(
        lm,
        transient,
        true,
        changed,
    ) {
        rd.decode_logp(1)
    } else {
        false
    };
    proof {
        lemma_tf_prefix_len(s0, transient, select_bit, (end - start) as nat);
    }
    let mut tf: Vec<i8> = Vec::new();
    let mut j: usize = 0;
    while j < MAX_BANDS
        invariant
            start <= end <= MAX_BANDS,
            lm < 4,
            flags@.len() == end - start,
            j <= MAX_BANDS,
            tf@.len() == j,
            forall|k: int|
                0 <= k < j ==> #[trigger] tf@[k] as int == if start <= k < end {
                    tf_select_value(lm as nat, transient, select, flags@[k - start])
                } else {
                    0
                },
        decreases MAX_BANDS - j,
    {
        if start <= j && j < end {
            tf.push(tf_lookup(lm, transient, select, flags[j - start]));
        } else {
            tf.push(0);
        }
        j = j + 1;
    }
    proof {
        let (s1, _d, ch, fl) = tf_prefix(s0, transient, select_bit, (end - start) as nat);
        assert(fl == flags@);
        assert(tf_ints(tf@) =~= tf_step(s0, lm as nat, transient, start as int, end as int).1);
    }
    tf
}

/// Per-channel state that outlives a frame.
pub struct CeltFrame {
    pub pf: PostFilter,
    /// Coarse-energy residual of each band in the last frame; `0` where nothing was decoded.
    pub residual: Vec<i32>,
    pub collapse_masks: Vec<u8>,
}

impl CeltFrame {
    pub open spec fn wf(&self) -> bool {
        &&& self.residual@.len() == MAX_BANDS
        &&& self.collapse_masks@.len() == MAX_BANDS
    }

    pub fn new() -> (r: Self)
        ensures
            r.wf(),
            r.pf == (PostFilter { period_new: 0, gain_new: 0, tapset_new: 0 }),
            forall|i: int| 0 <= i < MAX_BANDS ==> #[trigger] r.residual@[i] == 0,
            forall|i: int| 0 <= i < MAX_BANDS ==> #[trigger] r.collapse_masks@[i] == 0,
    {
        CeltFrame {
            pf: PostFilter { period_new: 0, gain_new: 0, tapset_new: 0 },
            residual: zeros_i32(),
            collapse_masks: zeros_u8(),
        }
    }
}

fn zeros_i32() -> (r: Vec<i32>)
    ensures
        r@.len() == MAX_BANDS,
        forall|i: int| 0 <= i < MAX_BANDS ==> #[trigger] r@[i] == 0,
{
    let mut v: Vec<i32> = Vec::new();
    let mut k: usize = 0;
    while k < MAX_BANDS
        invariant
            k <= MAX_BANDS,
            v@.len() == k,
            forall|j: int| 0 <= j < k ==> #[trigger] v@[j] == 0,
        decreases MAX_BANDS - k,
    {
        v.push(0);
        k = k + 1;
    }
    v
}

fn zeros_u8() -> (r: Vec<u8>)
    ensures
        r@.len() == MAX_BANDS,
        forall|i: int| 0 <= i < MAX_BANDS ==> #[trigger] r@[i] == 0,
{
    let mut v: Vec<u8> = Vec::new();
    let mut k: usize = 0;
    while k < MAX_BANDS
        invariant
            k <= MAX_BANDS,
            v@.len() == k,
            forall|j: int| 0 <= j < k ==> #[trigger] v@[j] == 0,
        decreases MAX_BANDS - k,
    {
        v.push(0);
        k = k + 1;
    }
    v
}

fn zeros_i8() -> (r: Vec<i8>)
    ensures
        r@.len() == MAX_BANDS,
        forall|i: int| 0 <= i < MAX_BANDS ==> #[trigger] r@[i] == 0,
{
    let mut v: Vec<i8> = Vec::new();
    let mut k: usize = 0;
    while k < MAX_BANDS
        invariant
            k <= MAX_BANDS,
            v@.len() == k,
            forall|j: int| 0 <= j < k ==> #[trigger] v@[j] == 0,
        decreases MAX_BANDS - k,
    {
        v.push(0);
        k = k + 1;
    }
    v
}

/// `new` over bands `[start, end)`, `old` elsewhere.
fn merge_i32(old: &Vec<i32>, new: &Vec<i32>, start: usize, end: usize) -> (r: Vec<i32>)
    requires
        old@.len() == MAX_BANDS,
        new@.len() == MAX_BANDS,
        start <= end <= MAX_BANDS,
    ensures
        r@.len() == MAX_BANDS,
        forall|i: int| start <= i < end ==> #[trigger] r@[i] == new@[i],
        forall|i: int| 0 <= i < MAX_BANDS && !(start <= i < end) ==> #[trigger] r@[i] == old@[i],
{
    let mut v: Vec<i32> = Vec::new();
    let mut i: usize = 0;
    while i < MAX_BANDS
        invariant
            old@.len() == MAX_BANDS,
            new@.len() == MAX_BANDS,
            i <= MAX_BANDS,
            v@.len() == i,
            forall|j: int| 0 <= j < i ==> #[trigger] v@[j] == if start <= j < end {
                new@[j]
            } else {
                old@[j]
            },
        decreases MAX_BANDS - i,
    {
        v.push(
            if start <= i && i < end {
                new[i]
            } else {
                old[i]
            },
        );
        i = i + 1;
    }
    v
}

/// `new` over bands `[start, end)`, `old` elsewhere.
fn merge_i8(old: &Vec<i8>, new: &Vec<i8>, start: usize, end: usize) -> (r: Vec<i8>)
    requires
        old@.len() == MAX_BANDS,
        new@.len() == MAX_BANDS,
        start <= end <= MAX_BANDS,
    ensures
        r@.len() == MAX_BANDS,
        forall|i: int| start <= i < end ==> #[trigger] r@[i] == new@[i],
        forall|i: int| 0 <= i < MAX_BANDS && !(start <= i < end) ==> #[trigger] r@[i] == old@[i],
{
    let mut v: Vec<i8> = Vec::new();
    let mut i: usize = 0;
    while i < MAX_BANDS
        invariant
            old@.len() == MAX_BANDS,
            new@.len() == MAX_BANDS,
            i <= MAX_BANDS,
            v@.len() == i,
            forall|j: int| 0 <= j < i ==> #[trigger] v@[j] == if start <= j < end {
                new@[j]
            } else {
                old@[j]
            },
        decreases MAX_BANDS - i,
    {
        v.push(
            if start <= i && i < end {
                new[i]
            } else {
                old[i]
            },
        );
        i = i + 1;
    }
    v
}

/// Duration class of a frame of `frame_size` samples: log2 of its count of shortest blocks.
pub open spec fn duration_class(frame_size: nat) -> nat {
    if frame_size == 960 {
        3
    } else if frame_size == 480 {
        2
    } else if frame_size == 240 {
        1
    } else {
        0
    }
}

pub open spec fn valid_frame_size(frame_size: nat) -> bool {
    frame_size == 120 || frame_size == 240 || frame_size == 480 || frame_size == 960
}

/// The silence flag: decoded with probability 1/2^15, or assumed when no bit remains.
pub open spec fn silence_step(s: RangeState) -> (RangeState, bool) {
    if available_of(s) > 0 {
        logp_step(s, 15)
    } else {
        (s, true)
    }
}

/// CELT decoder state of one stream, carried from frame to frame.
pub struct Celt {
    stereo: bool,
    stereo_pkt: bool,
    lm: usize,
    frames: Vec<CeltFrame>,
    spread: usize,
    pulses: Vec<i32>,
    tf_change: Vec<i8>,
    silence: bool,
    transient: bool,
    intra: bool,
    alloc_trim: usize,
    boost: Vec<i32>,
    budget: i64,
    alloc_row: usize,
    alloc_frac: usize,
    anticollapse_bit: usize,
    blocks: usize,
    blocksize: usize,
}

/// The header of a frame: silence flag (with silence, every bit counts as used), the
/// postfilter when the bands start at 0 and 16 bits remain, and the transient flag when the
/// frame has several blocks and 3 bits remain. Gives `(state, silence, postfilter, transient)`.
pub open spec fn header_step(s: RangeState, lm: nat, start: int) -> (
    RangeState,
    bool,
    Option<PostFilter>,
    bool,
) {
    let (s1, silence) = silence_step(s);
    let s2 = if silence {
        end_state(s1)
    } else {
        s1
    };
    let (s3, pf) = if start == 0 && available_of(s2) >= 16 {
        postfilter_step(s2)
    } else {
        (s2, None)
    };
    let (s4, transient) = if lm != 0 && available_of(s3) >= 3 {
        logp_step(s3, 3)
    } else {
        (s3, false)
    };
    (s4, silence, pf, transient)
}

/// The intra-energy flag, offered when 3 bits remain.
pub open spec fn intra_step(s: RangeState) -> (RangeState, bool) {
    if available_of(s) >= 3 {
        logp_step(s, 3)
    } else {
        (s, false)
    }
}

/// A channel's postfilter after the header: the decoded parameters, or the old ones with the
/// gain switched off.
pub open spec fn postfilter_after(old: PostFilter, pf: Option<PostFilter>) -> PostFilter {
    match pf {
        Some(p) => p,
        None => PostFilter { gain_new: 0, ..old },
    }
}

/// The spread decision, decoded when 4 bits remain, else normal spreading.
pub open spec fn spread_step(s: RangeState) -> (RangeState, nat) {
    if available_of(s) >= 4 {
        icdf_step(s, 32, seq![7usize, 9, 30, 32])
    } else {
        (s, SPREAD_NORMAL as nat)
    }
}

/// The allocation trim, decoded when six bits remain past the boosts, else the neutral 5.
pub open spec fn trim_step(s: RangeState, boost_size: int) -> (RangeState, nat) {
    if available_frac_of(s) > boost_size + 48 {
        icdf_step(s, 128, seq![2usize, 4, 9, 19, 41, 87, 109, 119, 124, 126, 128])
    } else {
        (s, 5)
    }
}

/// The allocation stage from state `s`: spread, boosts, trim and reservations are decoded in
/// that order and end in `fin`; the search over the remaining `budget` settles on `row` and
/// `frac` as `bisect_allocation` does; coded bands get their share, the others keep `old`.
pub open spec fn allocation_decoded(
    s: RangeState,
    lm: usize,
    stereo: usize,
    start: usize,
    end: usize,
    blocks: nat,
    fin: RangeState,
    spread: nat,
    boost: Seq<i32>,
    alloc_trim: usize,
    budget: int,
    row: int,
    frac: int,
    old: Seq<i32>,
    pulses: Seq<i32>,
) -> bool {
    let (s1, sp) = spread_step(s);
    let caps = caps_seq(lm, stereo);
    let (s2, bs, size, _d) = boost_prefix(
        s1,
        lm as nat,
        stereo as nat,
        start as int,
        ints(caps),
        (end - start) as nat,
    );
    let (s3, tr) = trim_step(s2, size);
    let m = alloc_model(
        lm,
        stereo,
        start,
        end,
        caps,
        thresh_seq(lm, stereo),
        trim_seq(lm, stereo, alloc_trim, end),
        boost,
    );
    let bits = interp_bits(m, row, frac);
    &&& fin == s3
    &&& spread == sp
    &&& alloc_trim == tr
    &&& boost.len() == MAX_BANDS
    &&& forall|i: int| start <= i < end ==> #[trigger] boost[i] as int == bs[i - start]
    &&& forall|i: int| 0 <= i < MAX_BANDS && !(start <= i < end) ==> #[trigger] boost[i] == 0
    &&& budget == reserve_spec(
        available_frac_of(s3) as int,
        blocks,
        lm as nat,
        stereo == 1,
        (end - start) as nat,
    ).0
    &&& 0 <= row < ALLOC_ROWS
    &&& 0 <= frac < 64
    &&& (row == 0 || alloc_total(m, row_bits(m, row)) <= budget)
    &&& (row == ALLOC_ROWS - 1 || alloc_total(m, row_bits(m, row + 1)) > budget)
    &&& (frac == 0 || alloc_total(m, bits) <= budget)
    &&& (frac == 63 || alloc_total(m, interp_bits(m, row, frac + 1)) > budget)
    &&& pulses.len() == MAX_BANDS
    &&& forall|i: int| start <= i < end ==> #[trigger] pulses[i] as int == band_alloc(m, bits, i)
    &&& forall|i: int| 0 <= i < MAX_BANDS && !(start <= i < end) ==> #[trigger] pulses[i] == old[i]
}

impl Celt {
    pub closed spec fn wf(&self) -> bool {
        &&& self.frames@.len() == 2
        &&& self.frames@[0].wf()
        &&& self.frames@[1].wf()
        &&& self.pulses@.len() == MAX_BANDS
        &&& self.tf_change@.len() == MAX_BANDS
        &&& self.boost@.len() == MAX_BANDS
        &&& self.lm < 4
    }

    /// The same state with another channel layout for the coming packet.
    pub closed spec fn with_stereo_pkt(self, stereo_pkt: bool) -> Celt {
        Celt { stereo_pkt, ..self }
    }

    pub closed spec fn spec_lm(&self) -> nat {
        self.lm as nat
    }

    pub closed spec fn spec_stereo_pkt(&self) -> bool {
        self.stereo_pkt
    }

    pub closed spec fn spec_pulses(&self) -> Seq<i32> {
        self.pulses@
    }

    pub closed spec fn spec_tf_change(&self) -> Seq<i8> {
        self.tf_change@
    }

    pub closed spec fn spec_silence(&self) -> bool {
        self.silence
    }

    pub closed spec fn spec_transient(&self) -> bool {
        self.transient
    }

    pub closed spec fn spec_stereo(&self) -> bool {
        self.stereo
    }

    pub closed spec fn spec_intra(&self) -> bool {
        self.intra
    }

    pub closed spec fn spec_spread(&self) -> usize {
        self.spread
    }

    pub closed spec fn spec_blocks(&self) -> usize {
        self.blocks
    }

    pub closed spec fn spec_blocksize(&self) -> usize {
        self.blocksize
    }

    pub closed spec fn spec_alloc_trim(&self) -> usize {
        self.alloc_trim
    }

    pub closed spec fn spec_anticollapse_bit(&self) -> usize {
        self.anticollapse_bit
    }

    pub closed spec fn spec_budget(&self) -> i64 {
        self.budget
    }

    pub closed spec fn spec_alloc_row(&self) -> usize {
        self.alloc_row
    }

    pub closed spec fn spec_alloc_frac(&self) -> usize {
        self.alloc_frac
    }

    pub closed spec fn spec_boost(&self) -> Seq<i32> {
        self.boost@
    }

    pub closed spec fn spec_residual(&self, ch: int) -> Seq<i32> {
        self.frames@[ch].residual@
    }

    pub closed spec fn spec_collapse_masks(&self, ch: int) -> Seq<u8> {
        self.frames@[ch].collapse_masks@
    }

    pub closed spec fn spec_postfilter(&self, ch: int) -> PostFilter {
        self.frames@[ch].pf
    }

    pub fn new(stereo: bool) -> (r: Self)
        ensures
            r.wf(),
            r.spec_stereo() == stereo,
            !r.spec_stereo_pkt(),
            r.spec_lm() == 0,
            r.spec_spread() == SPREAD_NORMAL,
            r.spec_postfilter(0) == (PostFilter { period_new: 0, gain_new: 0, tapset_new: 0 }),
            r.spec_postfilter(1) == (PostFilter { period_new: 0, gain_new: 0, tapset_new: 0 }),
            forall|i: int| 0 <= i < MAX_BANDS ==> #[trigger] r.spec_pulses()[i] == 0,
            forall|i: int| 0 <= i < MAX_BANDS ==> #[trigger] r.spec_tf_change()[i] == 0,
            forall|i: int| 0 <= i < MAX_BANDS ==> #[trigger] r.spec_boost()[i] == 0,
            forall|ch: int, i: int|
                0 <= ch < 2 && 0 <= i < MAX_BANDS ==> #[trigger] r.spec_residual(ch)[i] == 0,
            forall|ch: int, i: int|
                0 <= ch < 2 && 0 <= i < MAX_BANDS ==> #[trigger] r.spec_collapse_masks(ch)[i] == 0,
    {
        let mut frames: Vec<CeltFrame> = Vec::new();
        frames.push(CeltFrame::new());
        frames.push(CeltFrame::new());
        Celt {
            stereo,
            stereo_pkt: false,
            lm: 0,
            frames,
            spread: SPREAD_NORMAL,
            pulses: zeros_i32(),
            tf_change: zeros_i8(),
            silence: false,
            transient: false,
            intra: false,
            alloc_trim: 5,
            boost: zeros_i32(),
            budget: 0,
            alloc_row: 0,
            alloc_frac: 0,
            anticollapse_bit: 0,
            blocks: 0,
            blocksize: 0,
        }
    }

    /// Takes the channel layout of the packet about to be decoded; nothing else changes.
    pub fn setup(&mut self, stereo_pkt: bool)
        requires
            old(self).wf(),
        ensures
            final(self).wf(),
            *final(self) == old(self).with_stereo_pkt(stereo_pkt),
            final(self).spec_stereo_pkt() == stereo_pkt,
    {
        self.stereo_pkt = stereo_pkt;
    }

    /// Sets channel `ch`'s postfilter, leaving everything else.
    fn set_postfilter(&mut self, ch: usize, pf: PostFilter)
        requires
            old(self).wf(),
            ch < 2,
        ensures
            final(self).wf(),
            final(self).frames@ == old(self).frames@.update(
                ch as int,
                CeltFrame { pf, ..old(self).frames@[ch as int] },
            ),
            final(self).pulses == old(self).pulses,
            final(self).tf_change == old(self).tf_change,
            final(self).lm == old(self).lm,
            final(self).stereo == old(self).stereo,
            final(self).stereo_pkt == old(self).stereo_pkt,
            final(self).silence == old(self).silence,
    {
        let mut f = self.frames.remove(ch);
        f.pf = pf;
        self.frames.insert(ch, f);
    }

    /// Stores channel `ch`'s residuals and clears its collapse masks.
    fn set_frame_bands(&mut self, ch: usize, residual: Vec<i32>)
        requires
            old(self).wf(),
            ch < 2,
            residual@.len() == MAX_BANDS,
        ensures
            final(self).wf(),
            final(self).lm == old(self).lm,
            final(self).stereo == old(self).stereo,
            final(self).stereo_pkt == old(self).stereo_pkt,
            final(self).silence == old(self).silence,
            final(self).transient == old(self).transient,
            final(self).intra == old(self).intra,
            final(self).blocks == old(self).blocks,
            final(self).blocksize == old(self).blocksize,
            final(self).pulses == old(self).pulses,
            final(self).tf_change == old(self).tf_change,
            final(self).frames@[ch as int].residual@ == residual@,
            forall|i: int|
                0 <= i < MAX_BANDS ==> #[trigger] final(self).frames@[ch as int].collapse_masks@[i] == 0,
            final(self).frames@[ch as int].pf == old(self).frames@[ch as int].pf,
            final(self).frames@[1 - ch] == old(self).frames@[1 - ch],
    {
        let mut f = self.frames.remove(ch);
        f.residual = residual;
        f.collapse_masks = zeros_u8();
        self.frames.insert(ch, f);
    }

    /// Decodes the spread decision, the dynamic boosts, the allocation trim and the fixed
    /// reservations, then runs the allocation search over the coded bands.
    #[verifier::rlimit(80)]
    fn decode_allocation(&mut self, rd: &mut RangeDecoder, start: usize, end: usize)
        requires
            old(self).wf(),
            old(rd).wf(),
            start <= end <= MAX_BANDS,
        ensures
            final(self).wf(),
            final(rd).wf(),
            final(self).lm == old(self).lm,
            final(self).stereo == old(self).stereo,
            final(self).stereo_pkt == old(self).stereo_pkt,
            final(self).silence == old(self).silence,
            final(self).transient == old(self).transient,
            final(self).intra == old(self).intra,
            final(self).blocks == old(self).blocks,
            final(self).blocksize == old(self).blocksize,
            final(self).frames == old(self).frames,
            final(self).tf_change == old(self).tf_change,
            allocation_decoded(
                old(rd)@,
                final(self).lm,
                if final(self).stereo_pkt {
                    1
                } else {
                    0
                },
                start,
                end,
                final(self).blocks as nat,
                final(rd)@,
                final(self).spread as nat,
                final(self).boost@,
                final(self).alloc_trim,
                final(self).budget as int,
                final(self).alloc_row as int,
                final(self).alloc_frac as int,
                old(self).pulses@,
                final(self).pulses@,
            ),
            forall|i: int|
                start <= i < end ==> 0 <= #[trigger] final(self).pulses@[i] <= cap_value(
                    final(self).lm as nat,
                    if final(self).stereo_pkt {
                        1nat
                    } else {
                        0nat
                    },
                    i,
                ),
            available_of(old(rd)@) == 0 && available_frac_of(old(rd)@) <= 7 ==> forall|i: int|
                start <= i < end ==> #[trigger] final(self).pulses@[i] == 0,
    {
        let ghost s0 = rd@;
        let lm = self.lm;
        let st: usize = if self.stereo_pkt {
            1
        } else {
            0
        };
        self.spread = if rd.available() >= 4 {
            rd.decode_icdf(&model_spread())
        } else {
            SPREAD_NORMAL
        };
        let caps = compute_caps(lm, st);
        proof {
            crate::allocation::lemma_caps_seq(lm, st, caps@);
        }
        let (boost, boost_size) = decode_boosts(rd, lm, st, start, end, &caps);
        let alloc_trim = if rd.available_frac() as i64 > boost_size + 48 {
            rd.decode_icdf(&model_alloc_trim())
        } else {
            5
        };
        let (available, anti, _skip, _intensity, _dual) = crate::allocation::reserve_bits(
            rd.available_frac(),
            self.blocks,
            lm,
            self.stereo_pkt,
            end - start,
        );
        self.anticollapse_bit = anti;
        let thresh = compute_thresholds(lm, st);
        let trim = compute_trim_offsets(lm, st, alloc_trim, end);
        proof {
            crate::allocation::lemma_thresh_seq(lm, st, thresh@);
            crate::allocation::lemma_trim_seq(lm, st, alloc_trim, end, trim@);
            crate::allocation::lemma_decoder_model_wf(
                lm,
                st,
                start,
                end,
                alloc_trim,
                caps@,
                thresh@,
                trim@,
                boost@,
            );
        }
        let (pulses, row, frac) = bisect_allocation(
            lm,
            st,
            start,
            end,
            &caps,
            &thresh,
            &trim,
            &boost,
            available,
        );
        proof {
            if available_of(s0) == 0 && available_frac_of(s0) <= 7 {
                let m = alloc_model(lm, st, start, end, caps@, thresh@, trim@, boost@);
                let bits = interp_bits(m, row as int, frac as int);
                crate::allocation::lemma_small_total_allocates_nothing(m, bits);
            }
        }
        self.pulses = merge_i32(&self.pulses, &pulses, start, end);
        self.boost = boost;
        self.alloc_trim = alloc_trim;
        self.budget = available;
        self.alloc_row = row;
        self.alloc_frac = frac;
    }

    /// Silence flag, postfilter parameters and transient flag.
    fn decode_header(&mut self, rd: &mut RangeDecoder, frame_size: usize, start: usize)
        requires
            old(self).wf(),
            old(rd).wf(),
            valid_frame_size(frame_size as nat),
        ensures
            final(self).wf(),
            final(rd).wf(),
            final(self).lm == duration_class(frame_size as nat),
            final(self).stereo == old(self).stereo,
            final(self).stereo_pkt == old(self).stereo_pkt,
            final(self).pulses == old(self).pulses,
            final(self).tf_change == old(self).tf_change,
            final(self).blocks == if final(self).transient {
                pow2(final(self).lm as nat)
            } else {
                1
            },
            final(self).blocksize == frame_size / final(self).blocks,
            ({
                let (s1, silence, pf, transient) = header_step(
                    old(rd)@,
                    duration_class(frame_size as nat),
                    start as int,
                );
                &&& final(rd)@ == s1
                &&& final(self).silence == silence
                &&& final(self).transient == transient
                &&& final(self).frames@[0].pf == postfilter_after(old(self).frames@[0].pf, pf)
                &&& final(self).frames@[1].pf == postfilter_after(old(self).frames@[1].pf, pf)
            }),
            final(self).silence ==> {
                &&& available_of(final(rd)@) == 0
                &&& available_frac_of(final(rd)@) <= 7
            },
    {
        proof {
            reveal_with_fuel(spec_ilog, 5);
        }
        let l = ilog((frame_size / SHORT_BLOCKSIZE) as u32);
        self.lm = (l - 1) as usize;
        let silence = if rd.available() > 0 {
            rd.decode_logp(15)
        } else {
            true
        };
        self.silence = silence;
        if silence {
            rd.to_end();
        }
        let pf0 = self.frames[0].pf;
        let pf1 = self.frames[1].pf;
        let decoded = if start == 0 && rd.available() >= 16 {
            parse_postfilter(rd)
        } else {
            None
        };
        match decoded {
            Some(pf) => {
                self.set_postfilter(0, pf);
                self.set_postfilter(1, pf);
            },
            None => {
                self.set_postfilter(0, PostFilter { gain_new: 0, ..pf0 });
                self.set_postfilter(1, PostFilter { gain_new: 0, ..pf1 });
            },
        }
        let transient = if self.lm != 0 && rd.available() >= 3 {
            rd.decode_logp(3)
        } else {
            false
        };
        self.transient = transient;
        proof {
            reveal_with_fuel(pow2, 4);
        }
        self.blocks = if transient {
            if self.lm == 3 {
                8
            } else if self.lm == 2 {
                4
            } else {
                2
            }
        } else {
            1
        };
        self.blocksize = frame_size / self.blocks;
    }

    /// Decodes one frame of `frame_size` samples over bands `[start, end)`, in the order the
    /// bitstream fixes: header, intra flag, coarse energy, tf changes, allocation. Bands outside
    /// `[start, end)` keep their pulses and tf changes.
    #[verifier::rlimit(80)]
    pub fn decode(&mut self, rd: &mut RangeDecoder, frame_size: usize, start: usize, end: usize)
        requires
            old(self).wf(),
            old(rd).wf(),
            valid_frame_size(frame_size as nat),
            start <= end <= MAX_BANDS,
        ensures
            final(self).wf(),
            final(rd).wf(),
            final(self).spec_lm() == duration_class(frame_size as nat),
            final(self).spec_stereo_pkt() == old(self).spec_stereo_pkt(),
            final(self).spec_stereo() == old(self).spec_stereo(),
            final(self).spec_blocks() == if final(self).spec_transient() {
                pow2(final(self).spec_lm())
            } else {
                1
            },
            final(self).spec_blocksize() == frame_size / final(self).spec_blocks(),
            ({
                let lm = duration_class(frame_size as nat);
                let stereo = old(self).spec_stereo_pkt();
                let (s1, silence, pf, transient) = header_step(old(rd)@, lm, start as int);
                let (s2, intra) = intra_step(s1);
                let (s3, r0, r1) = coarse_prefix(
                    s2,
                    intra,
                    lm,
                    stereo,
                    start as int,
                    end as int,
                    MAX_BANDS as nat,
                );
                let (s4, tf) = tf_step(s3, lm, transient, start as int, end as int);
                &&& final(self).spec_silence() == silence
                &&& final(self).spec_transient() == transient
                &&& final(self).spec_intra() == intra
                &&& final(self).spec_postfilter(0) == postfilter_after(old(self).spec_postfilter(0), pf)
                &&& final(self).spec_postfilter(1) == postfilter_after(old(self).spec_postfilter(1), pf)
                &&& ints(final(self).spec_residual(0)) == r0
                &&& ints(final(self).spec_residual(1)) == r1
                &&& final(self).spec_tf_change().len() == MAX_BANDS
                &&& forall|i: int|
                    start <= i < end ==> #[trigger] final(self).spec_tf_change()[i] as int == tf[i]
                &&& forall|i: int|
                    0 <= i < MAX_BANDS && !(start <= i < end) ==> #[trigger] final(self).spec_tf_change()[i]
                        == old(self).spec_tf_change()[i]
                &&& allocation_decoded(
                    s4,
                    lm as usize,
                    if stereo {
                        1
                    } else {
                        0
                    },
                    start,
                    end,
                    final(self).spec_blocks() as nat,
                    final(rd)@,
                    final(self).spec_spread() as nat,
                    final(self).spec_boost(),
                    final(self).spec_alloc_trim(),
                    final(self).spec_budget() as int,
                    final(self).spec_alloc_row() as int,
                    final(self).spec_alloc_frac() as int,
                    old(self).spec_pulses(),
                    final(self).spec_pulses(),
                )
            }),
            forall|ch: int, i: int|
                0 <= ch < 2 && 0 <= i < MAX_BANDS ==> #[trigger] final(self).spec_collapse_masks(ch)[i] == 0,
            final(self).spec_silence() ==> {
                &&& !final(self).spec_transient()
                &&& final(self).spec_postfilter(0).gain_new == 0
                &&& final(self).spec_postfilter(1).gain_new == 0
                &&& forall|i: int| start <= i < end ==> #[trigger] final(self).spec_pulses()[i] == 0
            },
            forall|i: int|
                start <= i < end ==> 0 <= #[trigger] final(self).spec_pulses()[i] <= cap_value(
                    final(self).spec_lm(),
                    if final(self).spec_stereo_pkt() {
                        1nat
                    } else {
                        0nat
                    },
                    i,
                ),
    {
        let ghost s0 = rd@;
        self.decode_header(rd, frame_size, start);
        let transient = self.transient;
        let intra = if rd.available() >= 3 {
            rd.decode_logp(3)
        } else {
            false
        };
        self.intra = intra;
        let (e0, e1) = decode_coarse_energy(rd, intra, self.lm, self.stereo_pkt, start, end);
        self.set_frame_bands(0, e0);
        self.set_frame_bands(1, e1);
        let tf = decode_tf_changes(rd, self.lm, transient, start, end);
        self.tf_change = merge_i8(&self.tf_change, &tf, start, end);
        self.decode_allocation(rd, start, end);
    }

    pub fn lm(&self) -> (r: usize)
        ensures
            r == self.spec_lm(),
    {
        self.lm
    }

    pub fn stereo(&self) -> (r: bool)
        ensures
            r == self.spec_stereo(),
    {
        self.stereo
    }

    pub fn stereo_pkt(&self) -> (r: bool)
        ensures
            r == self.spec_stereo_pkt(),
    {
        self.stereo_pkt
    }

    pub fn silence(&self) -> (r: bool)
        ensures
            r == self.spec_silence(),
    {
        self.silence
    }

    pub fn transient(&self) -> (r: bool)
        ensures
            r == self.spec_transient(),
    {
        self.transient
    }

    pub fn intra(&self) -> (r: bool)
        ensures
            r == self.spec_intra(),
    {
        self.intra
    }

    pub fn spread(&self) -> (r: usize)
        ensures
            r == self.spec_spread(),
    {
        self.spread
    }

    pub fn blocks(&self) -> (r: usize)
        ensures
            r == self.spec_blocks(),
    {
        self.blocks
    }

    pub fn blocksize(&self) -> (r: usize)
        ensures
            r == self.spec_blocksize(),
    {
        self.blocksize
    }

    pub fn alloc_trim(&self) -> (r: usize)
        ensures
            r == self.spec_alloc_trim(),
    {
        self.alloc_trim
    }

    pub fn anticollapse_bit(&self) -> (r: usize)
        ensures
            r == self.spec_anticollapse_bit(),
    {
        self.anticollapse_bit
    }

    /// Per-band pulse budgets of the last frame, in eighths of a bit.
    pub fn pulses(&self) -> (r: &[i32])
        ensures
            r@ == self.spec_pulses(),
    {
        self.pulses.as_slice()
    }

    /// Per-band time-frequency resolution changes of the last frame.
    pub fn tf_change(&self) -> (r: &[i8])
        ensures
            r@ == self.spec_tf_change(),
    {
        self.tf_change.as_slice()
    }

    /// Dynamic boosts of the last frame, in eighths of a bit.
    pub fn boost(&self) -> (r: &[i32])
        ensures
            r@ == self.spec_boost(),
    {
        self.boost.as_slice()
    }

    /// Postfilter parameters of channel `ch`.
    pub fn postfilter(&self, ch: usize) -> (r: PostFilter)
        requires
            self.wf(),
            ch < 2,
        ensures
            r == self.spec_postfilter(ch as int),
    {
        self.frames[ch].pf
    }

    /// Collapse masks of channel `ch`, cleared at the start of every frame.
    pub fn collapse_masks(&self, ch: usize) -> (r: &[u8])
        requires
            self.wf(),
            ch < 2,
        ensures
            r@ == self.spec_collapse_masks(ch as int),
    {
        self.frames[ch].collapse_masks.as_slice()
    }

    /// Eighths of a bit left for the bands after the fixed-cost reservations.
    pub fn budget(&self) -> (r: i64)
        ensures
            r == self.spec_budget(),
    {
        self.budget
    }

    /// Lower row of the static table that the allocation search settled on.
    pub fn alloc_row(&self) -> (r: usize)
        ensures
            r == self.spec_alloc_row(),
    {
        self.alloc_row
    }

    /// Fraction, in 1/64, towards the next row.
    pub fn alloc_frac(&self) -> (r: usize)
        ensures
            r == self.spec_alloc_frac(),
    {
        self.alloc_frac
    }

    /// Coarse-energy residuals of channel `ch` in the last frame.
    pub fn residual(&self, ch: usize) -> (r: &[i32])
        requires
            self.wf(),
            ch < 2,
        ensures
            r@ == self.spec_residual(ch as int),
    {
        self.frames[ch].residual.as_slice()
    }
}

} // verus!
