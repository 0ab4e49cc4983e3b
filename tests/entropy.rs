use opus::entropy::{ilog, ICDFContext, RangeDecoder};
use opus::tables::{model_alloc_trim, model_spread};

#[test]
fn fresh_decoder_has_used_one_bit() {
    let buf = [0u8; 10];
    let rd = RangeDecoder::new(&buf);
    assert_eq!(rd.tell(), 1);
    assert_eq!(rd.tell_frac(), 8);
    assert_eq!(rd.available(), 79);
    assert_eq!(rd.available_frac(), 632);
}

#[test]
fn decode_logp_zero_is_always_true() {
    for fill in [0u8, 0x55, 0xaa, 0xff] {
        let buf = [fill; 8];
        let mut rd = RangeDecoder::new(&buf);
        for _ in 0..20 {
            assert!(rd.decode_logp(0));
        }
    }
}

#[test]
fn decode_logp_follows_the_value() {
    // All ones: the value sits at the bottom of the interval, so every decision is "true".
    let ones = [0xffu8; 8];
    let mut rd = RangeDecoder::new(&ones);
    assert!(rd.decode_logp(15));
    // All zeros: the value sits at the top, so a rare decision is "false".
    let zeros = [0u8; 8];
    let mut rd = RangeDecoder::new(&zeros);
    assert!(!rd.decode_logp(15));
}

#[test]
fn decoding_is_deterministic() {
    let buf: Vec<u8> = (0..64u32).map(|i| (i * 37 + 11) as u8).collect();
    let run = |b: &[u8]| {
        let mut rd = RangeDecoder::new(b);
        let mut out = Vec::new();
        for k in 0..40usize {
            out.push(rd.decode_logp(k % 6) as usize);
            out.push(rd.decode_icdf(&model_spread()));
            out.push(rd.decode_uniform(6 + k));
            out.push(rd.tell_frac());
        }
        out
    };
    let a = run(&buf);
    let b = run(&buf.clone());
    assert_eq!(a, b);
}

#[test]
fn decode_icdf_symbol_in_range() {
    let buf: Vec<u8> = (0..32u32).map(|i| (i * 91 + 3) as u8).collect();
    let mut rd = RangeDecoder::new(&buf);
    let model = model_alloc_trim();
    for _ in 0..30 {
        let k = rd.decode_icdf(&model);
        assert!(k < model.dist.len());
    }
}

#[test]
fn decode_icdf_on_extremes() {
    let m = ICDFContext { total: 4, dist: vec![2, 3, 4] };
    let zeros = [0u8; 8];
    let mut rd = RangeDecoder::new(&zeros);
    // The value at the top of the interval falls in the first symbol.
    assert_eq!(rd.decode_icdf(&m), 0);
    let ones = [0xffu8; 8];
    let mut rd = RangeDecoder::new(&ones);
    // At the bottom, in the last.
    assert_eq!(rd.decode_icdf(&m), 2);
}

#[test]
fn decode_uniform_small() {
    let zeros = [0u8; 8];
    let mut rd = RangeDecoder::new(&zeros);
    assert_eq!(rd.decode_uniform(6), 0);
    let ones = [0xffu8; 8];
    let mut rd = RangeDecoder::new(&ones);
    assert_eq!(rd.decode_uniform(6), 5);
}

#[test]
fn decode_uniform_wide_takes_raw_bits() {
    // Over [0, 1024): 8 coded bits and 2 raw bits from the tail.
    let mut buf = [0u8; 8];
    buf[7] = 0b11;
    let mut rd = RangeDecoder::new(&buf);
    assert_eq!(rd.decode_uniform(1024), 3);
}

#[test]
fn rawbits_reads_the_tail() {
    let buf = [0u8, 0, 0, 0, 0, 0, 0xab];
    let mut rd = RangeDecoder::new(&buf);
    assert_eq!(rd.rawbits(4), 0xb);
    assert_eq!(rd.rawbits(4), 0xa);
    assert_eq!(rd.rawbits(8), 0);
}

#[test]
fn decode_laplace_centre_and_tail() {
    let zeros = [0u8; 8];
    let mut rd = RangeDecoder::new(&zeros);
    assert_eq!(rd.decode_laplace(72 << 7, 127 << 6), 0);
    let ones = [0xffu8; 8];
    let mut rd = RangeDecoder::new(&ones);
    // The value at the bottom of the interval lands in the far positive tail.
    let v = rd.decode_laplace(72 << 7, 127 << 6);
    assert!(v > 0);
}

#[test]
fn to_end_leaves_nothing() {
    let buf = [0u8; 16];
    let mut rd = RangeDecoder::new(&buf);
    rd.to_end();
    assert_eq!(rd.tell(), 128);
    assert_eq!(rd.available(), 0);
    assert!(rd.available_frac() <= 7);
}

#[test]
fn ilog_counts_significant_bits() {
    assert_eq!(ilog(0), 0);
    assert_eq!(ilog(1), 1);
    assert_eq!(ilog(2), 2);
    assert_eq!(ilog(255), 8);
    assert_eq!(ilog(256), 9);
    assert_eq!(ilog(0x8000_0000), 32);
}

#[test]
fn decode_uniform_stays_below_n() {
    for seed in 0..64u32 {
        let buf: Vec<u8> = (0..16u32).map(|i| (i * 131 + seed * 17 + 7) as u8).collect();
        let mut rd = RangeDecoder::new(&buf);
        for n in [1usize, 2, 6, 257, 300, 1000, 70_000] {
            assert!(rd.decode_uniform(n) < n);
        }
    }
}
