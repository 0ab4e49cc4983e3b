use opus::celt::{parse_postfilter, Celt, MIN_PERIOD};
use opus::entropy::RangeDecoder;
use opus::allocation::compute_caps;

fn packet(len: usize, seed: u32) -> Vec<u8> {
    let mut x = seed;
    (0..len)
        .map(|_| {
            x = x.wrapping_mul(1_103_515_245).wrapping_add(12_345);
            (x >> 16) as u8
        })
        .collect()
}

#[test]
fn silent_frame_decodes_nothing() {
    let buf = [0xffu8; 40];
    let mut rd = RangeDecoder::new(&buf);
    let mut celt = Celt::new(false);
    celt.setup(false);
    celt.decode(&mut rd, 960, 0, 21);
    assert!(celt.silence());
    assert!(!celt.transient());
    assert_eq!(celt.postfilter(0).gain_new, 0);
    assert_eq!(celt.postfilter(1).gain_new, 0);
    assert!(celt.pulses().iter().all(|&p| p == 0));
    assert!(celt.residual(0).iter().all(|&r| r == -1));
    assert_eq!(rd.available(), 0);
}

#[test]
fn empty_packet_is_silent() {
    let buf: [u8; 0] = [];
    let mut rd = RangeDecoder::new(&buf);
    let mut celt = Celt::new(true);
    celt.setup(true);
    celt.decode(&mut rd, 480, 0, 21);
    assert!(celt.silence());
    assert!(celt.pulses().iter().all(|&p| p == 0));
}

#[test]
fn frame_respects_caps_and_band_range() {
    for seed in 0..40u32 {
        for (size, stereo, start, end) in [(960usize, false, 0usize, 21usize), (480, true, 0, 21), (240, false, 2, 17), (120, true, 0, 13)] {
            let buf = packet(60 + seed as usize, seed);
            let mut rd = RangeDecoder::new(&buf);
            let mut celt = Celt::new(stereo);
            celt.setup(stereo);
            celt.decode(&mut rd, size, start, end);
            let caps = compute_caps(celt.lm(), stereo as usize);
            let pulses = celt.pulses();
            for i in 0..21 {
                assert!(pulses[i] >= 0 && pulses[i] <= caps[i]);
                if i < start || i >= end {
                    assert_eq!(pulses[i], 0);
                    assert_eq!(celt.tf_change()[i], 0);
                    assert_eq!(celt.residual(0)[i], 0);
                }
                assert!((-3..=3).contains(&celt.tf_change()[i]));
            }
            if !stereo {
                assert!(celt.residual(1).iter().all(|&r| r == 0));
            }
            assert!(celt.spread() < 4);
            assert!(celt.alloc_trim() <= 10);
        }
    }
}

#[test]
fn duration_class_from_frame_size() {
    let buf = packet(50, 7);
    for (size, lm) in [(120usize, 0usize), (240, 1), (480, 2), (960, 3)] {
        let mut rd = RangeDecoder::new(&buf);
        let mut celt = Celt::new(false);
        celt.decode(&mut rd, size, 0, 21);
        assert_eq!(celt.lm(), lm);
        assert_eq!(celt.blocks() * celt.blocksize(), size);
    }
}

#[test]
fn decoding_twice_gives_the_same_frame() {
    let buf = packet(80, 3);
    let mut a = Celt::new(true);
    let mut b = Celt::new(true);
    a.setup(true);
    b.setup(true);
    a.decode(&mut RangeDecoder::new(&buf), 960, 0, 21);
    b.decode(&mut RangeDecoder::new(&buf), 960, 0, 21);
    assert_eq!(a.pulses(), b.pulses());
    assert_eq!(a.tf_change(), b.tf_change());
    assert_eq!(a.residual(0), b.residual(0));
    assert_eq!(a.residual(1), b.residual(1));
    assert_eq!(a.postfilter(0), b.postfilter(0));
}

#[test]
fn postfilter_parameters() {
    // All ones: the flag is set, the octave is the largest, every raw bit is one.
    let buf = [0xffu8; 20];
    let mut rd = RangeDecoder::new(&buf);
    let pf = parse_postfilter(&mut rd).unwrap();
    assert_eq!(pf.period_new, (16 << 5) + 511 - 1);
    assert_eq!(pf.gain_new, 3 * 8);
    assert_eq!(pf.tapset_new, 2);
    // All zeros: the flag is clear.
    let buf = [0u8; 20];
    let mut rd = RangeDecoder::new(&buf);
    assert!(parse_postfilter(&mut rd).is_none());
    assert!(MIN_PERIOD == 15);
}

#[test]
fn bands_outside_the_range_keep_their_values() {
    let first = packet(120, 11);
    let second = packet(120, 12);
    let mut celt = Celt::new(false);
    celt.decode(&mut RangeDecoder::new(&first), 960, 0, 21);
    let pulses_before = celt.pulses().to_vec();
    let tf_before = celt.tf_change().to_vec();
    celt.decode(&mut RangeDecoder::new(&second), 960, 4, 12);
    for i in (0..4).chain(12..21) {
        assert_eq!(celt.pulses()[i], pulses_before[i]);
        assert_eq!(celt.tf_change()[i], tf_before[i]);
    }
    assert!(celt.collapse_masks(0).iter().all(|&m| m == 0));
    assert!(celt.collapse_masks(1).iter().all(|&m| m == 0));
    assert!(celt.alloc_row() < 11 && celt.alloc_frac() < 64);
}

#[test]
fn new_decoder_defaults() {
    let celt = Celt::new(true);
    assert!(celt.stereo());
    assert!(!celt.stereo_pkt());
    assert_eq!(celt.spread(), 2);
    assert_eq!(celt.postfilter(0).gain_new, 0);
    assert!(celt.tf_change().iter().all(|&t| t == 0));
    assert!(celt.residual(1).iter().all(|&r| r == 0));
}
