use opus::allocation::{
    bisect_allocation, compute_caps, compute_thresholds, compute_trim_offsets, decode_boosts,
    reserve_bits,
};
use opus::entropy::RangeDecoder;

fn inputs(lm: usize, stereo: usize, trim: usize, end: usize) -> (Vec<i32>, Vec<i32>, Vec<i32>) {
    (compute_caps(lm, stereo), compute_thresholds(lm, stereo), compute_trim_offsets(lm, stereo, trim, end))
}

#[test]
fn caps_formula() {
    let c = compute_caps(0, 0);
    assert_eq!(c[0], 72);
    assert_eq!(c[20], (37 + 64) * 22 / 4);
    let c = compute_caps(3, 1);
    assert_eq!(c[20], 9152);
    assert_eq!(c[0], (204 + 64) * 16 / 4);
}

#[test]
fn thresholds_formula() {
    let t = compute_thresholds(0, 0);
    assert_eq!(t[0], 8);
    let t = compute_thresholds(3, 1);
    assert_eq!(t[0], 16);
    assert_eq!(t[20], 264);
}

#[test]
fn trim_offsets_formula() {
    let t = compute_trim_offsets(0, 0, 5, 21);
    assert_eq!(t[0], -8);
    assert_eq!(t[20], 0);
    let t = compute_trim_offsets(0, 0, 7, 21);
    assert_eq!(t[0], -3);
    let t = compute_trim_offsets(0, 0, 3, 21);
    assert_eq!(t[0], -13);
    // Negative offsets round down.
    let t = compute_trim_offsets(0, 0, 4, 21);
    assert_eq!(t[19], -3);
    // Bands past the end carry no offset.
    let t = compute_trim_offsets(1, 0, 9, 10);
    assert_eq!(t[10], 0);
    assert_eq!(t[9], 0);
}

#[test]
fn reservations() {
    assert_eq!(reserve_bits(100, 1, 0, false, 21), (91, 0, 8, 0, 0));
    assert_eq!(reserve_bits(100, 8, 3, true, 21), (39, 8, 8, 36, 8));
    assert_eq!(reserve_bits(0, 8, 3, true, 21), (-1, 0, 0, 0, 0));
    assert_eq!(reserve_bits(20, 8, 3, true, 1), (3, 0, 8, 8, 0));
}

#[test]
fn no_budget_no_pulses() {
    let (caps, thresh, trim) = inputs(3, 0, 5, 21);
    let boost = vec![0; 21];
    for budget in [-1i64, 0, 6] {
        let (pulses, row, _) = bisect_allocation(3, 0, 0, 21, &caps, &thresh, &trim, &boost, budget);
        assert!(pulses.iter().all(|&p| p == 0));
        assert_eq!(row, 0);
    }
}

#[test]
fn pulses_respect_caps_and_budget() {
    for (lm, stereo) in [(0usize, 0usize), (1, 1), (2, 0), (3, 1)] {
        let (caps, thresh, trim) = inputs(lm, stereo, 5, 21);
        let boost = vec![0; 21];
        for budget in [10i64, 100, 1000, 5000, 20000, 1_000_000] {
            let (pulses, _, _) = bisect_allocation(lm, stereo, 0, 21, &caps, &thresh, &trim, &boost, budget);
            for i in 0..21 {
                assert!(pulses[i] >= 0 && pulses[i] <= caps[i]);
            }
            let total: i64 = pulses.iter().map(|&p| p as i64).sum();
            assert!(total <= budget);
        }
    }
}

#[test]
fn allocation_grows_with_budget() {
    let (caps, thresh, trim) = inputs(3, 0, 5, 21);
    let boost = vec![0; 21];
    let mut last = 0i64;
    for budget in (0..200).map(|k| k * 97) {
        let (pulses, _, _) = bisect_allocation(3, 0, 0, 21, &caps, &thresh, &trim, &boost, budget);
        let total: i64 = pulses.iter().map(|&p| p as i64).sum();
        assert!(total >= last);
        last = total;
    }
}

#[test]
fn bands_outside_range_get_nothing() {
    let (caps, thresh, trim) = inputs(2, 0, 5, 15);
    let boost = vec![0; 21];
    let (pulses, _, _) = bisect_allocation(2, 0, 3, 15, &caps, &thresh, &trim, &boost, 4000);
    for i in (0..3).chain(15..21) {
        assert_eq!(pulses[i], 0);
    }
    assert!(pulses[3..15].iter().any(|&p| p > 0));
}

#[test]
fn boosts_on_an_eager_stream() {
    let buf = [0xffu8; 200];
    let mut rd = RangeDecoder::new(&buf);
    let caps = compute_caps(3, 0);
    let (boost, total) = decode_boosts(&mut rd, 3, 0, 0, 21, &caps);
    assert!(boost[0] > 0);
    assert_eq!(total, boost.iter().map(|&b| b as i64).sum::<i64>());
    for i in 0..21 {
        assert!(boost[i] >= 0 && boost[i] < caps[i] + 48 * 8);
    }
}

#[test]
fn no_boosts_on_a_reluctant_stream() {
    let buf = [0u8; 200];
    let mut rd = RangeDecoder::new(&buf);
    let caps = compute_caps(3, 0);
    let (boost, total) = decode_boosts(&mut rd, 3, 0, 0, 21, &caps);
    assert_eq!(total, 0);
    assert!(boost.iter().all(|&b| b == 0));
}
