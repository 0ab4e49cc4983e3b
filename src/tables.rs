use vstd::prelude::*;
use crate::entropy::ICDFContext;

verus! {

/// Number of bands a frame is split into.
pub const MAX_BANDS: usize = 21;

/// Width of each band, in units of the shortest block's bins.
pub open spec fn freq_range_seq() -> Seq<u8> {
    seq![
        1u8, 1, 1, 1, 1, 1, 1, 1, 2, 2, 2, 2, 4, 4,
        4, 6, 6, 8, 12, 18, 22,
    ]
}

/// Width of each band, in units of the shortest block's bins.
pub fn freq_range(i: usize) -> (r: u8)
    requires
        i < 21,
    ensures
        r == freq_range_seq()[i as int],
{
    let t: [u8; 21] = [
        1, 1, 1, 1, 1, 1, 1, 1, 2, 2, 2, 2, 4, 4,
        4, 6, 6, 8, 12, 18, 22,
    ];
    proof {
        assert(t@ =~= freq_range_seq());
    }
    t[i as usize]
}

/// Per-band allocation caps, by duration class, then channel count, then band.
pub open spec fn static_caps_seq() -> Seq<u8> {
    seq![
        224u8, 224, 224, 224, 224, 224, 224, 224, 160, 160, 160, 160, 185, 185,
        185, 178, 178, 168, 134, 61, 37, 224, 224, 224, 224, 224, 224, 224,
        224, 240, 240, 240, 240, 207, 207, 207, 198, 198, 183, 144, 66, 40,
        160, 160, 160, 160, 160, 160, 160, 160, 185, 185, 185, 185, 193, 193,
        193, 183, 183, 172, 138, 64, 38, 240, 240, 240, 240, 240, 240, 240,
        240, 207, 207, 207, 207, 204, 204, 204, 193, 193, 180, 143, 66, 40,
        185, 185, 185, 185, 185, 185, 185, 185, 193, 193, 193, 193, 193, 193,
        193, 183, 183, 172, 138, 65, 39, 207, 207, 207, 207, 207, 207, 207,
        207, 204, 204, 204, 204, 201, 201, 201, 188, 188, 176, 141, 66, 40,
        193, 193, 193, 193, 193, 193, 193, 193, 193, 193, 193, 193, 194, 194,
        194, 184, 184, 173, 139, 65, 39, 204, 204, 204, 204, 204, 204, 204,
        204, 201, 201, 201, 201, 198, 198, 198, 187, 187, 175, 140, 66, 40,
    ]
}

/// Per-band allocation caps, by duration class, then channel count, then band.
pub fn static_caps(lm: usize, stereo: usize, i: usize) -> (r: u8)
    requires
        lm < 4 && stereo < 2 && i < 21,
    ensures
        r == static_caps_seq()[(lm * 42 + stereo * 21 + i) as int],
{
    let t: [u8; 168] = [
        224, 224, 224, 224, 224, 224, 224, 224, 160, 160, 160, 160, 185, 185,
        185, 178, 178, 168, 134, 61, 37, 224, 224, 224, 224, 224, 224, 224,
        224, 240, 240, 240, 240, 207, 207, 207, 198, 198, 183, 144, 66, 40,
        160, 160, 160, 160, 160, 160, 160, 160, 185, 185, 185, 185, 193, 193,
        193, 183, 183, 172, 138, 64, 38, 240, 240, 240, 240, 240, 240, 240,
        240, 207, 207, 207, 207, 204, 204, 204, 193, 193, 180, 143, 66, 40,
        185, 185, 185, 185, 185, 185, 185, 185, 193, 193, 193, 193, 193, 193,
        193, 183, 183, 172, 138, 65, 39, 207, 207, 207, 207, 207, 207, 207,
        207, 204, 204, 204, 204, 201, 201, 201, 188, 188, 176, 141, 66, 40,
        193, 193, 193, 193, 193, 193, 193, 193, 193, 193, 193, 193, 194, 194,
        194, 184, 184, 173, 139, 65, 39, 204, 204, 204, 204, 204, 204, 204,
        204, 201, 201, 201, 201, 198, 198, 198, 187, 187, 175, 140, 66, 40,
    ];
    proof {
        assert(t@ =~= static_caps_seq());
    }
    t[(lm * 42 + stereo * 21 + i) as usize]
}

/// Static allocation rows in 1/32 bit per sample, from the leanest row to the richest.
pub open spec fn static_alloc_seq() -> Seq<u8> {
    seq![
        0u8, 0, 0, 0, 0, 0, 0, 0, 0, 0, 0, 0, 0, 0,
        0, 0, 0, 0, 0, 0, 0, 90, 80, 75, 69, 63, 56, 49,
        40, 34, 29, 20, 18, 10, 0, 0, 0, 0, 0, 0, 0, 0,
        110, 100, 90, 84, 78, 71, 65, 58, 51, 45, 39, 32, 26, 20,
        12, 0, 0, 0, 0, 0, 0, 118, 110, 103, 93, 86, 80, 75,
        70, 65, 59, 53, 47, 40, 31, 23, 15, 4, 0, 0, 0, 0,
        126, 119, 112, 104, 95, 89, 83, 78, 72, 66, 60, 54, 47, 39,
        32, 25, 17, 12, 1, 0, 0, 134, 127, 120, 114, 103, 97, 91,
        85, 78, 72, 66, 60, 54, 47, 41, 35, 29, 23, 16, 10, 1,
        144, 137, 130, 124, 113, 107, 101, 95, 88, 82, 76, 70, 64, 57,
        51, 45, 39, 33, 26, 15, 1, 152, 145, 138, 132, 123, 117, 111,
        105, 98, 92, 86, 80, 74, 67, 61, 55, 49, 43, 36, 20, 1,
        162, 155, 148, 142, 133, 127, 121, 115, 108, 102, 96, 90, 84, 77,
        71, 65, 59, 53, 46, 30, 1, 172, 165, 158, 152, 143, 137, 131,
        125, 118, 112, 106, 100, 94, 87, 81, 75, 69, 63, 56, 45, 20,
        200, 200, 200, 200, 200, 200, 200, 200, 198, 193, 188, 183, 178, 173,
        168, 163, 158, 153, 148, 129, 104,
    ]
}

/// Static allocation rows in 1/32 bit per sample, from the leanest row to the richest.
pub fn static_alloc(row: usize, i: usize) -> (r: u8)
    requires
        row < 11 && i < 21,
    ensures
        r == static_alloc_seq()[(row * 21 + i) as int],
{
    let t: [u8; 231] = [
        0, 0, 0, 0, 0, 0, 0, 0, 0, 0, 0, 0, 0, 0,
        0, 0, 0, 0, 0, 0, 0, 90, 80, 75, 69, 63, 56, 49,
        40, 34, 29, 20, 18, 10, 0, 0, 0, 0, 0, 0, 0, 0,
        110, 100, 90, 84, 78, 71, 65, 58, 51, 45, 39, 32, 26, 20,
        12, 0, 0, 0, 0, 0, 0, 118, 110, 103, 93, 86, 80, 75,
        70, 65, 59, 53, 47, 40, 31, 23, 15, 4, 0, 0, 0, 0,
        126, 119, 112, 104, 95, 89, 83, 78, 72, 66, 60, 54, 47, 39,
        32, 25, 17, 12, 1, 0, 0, 134, 127, 120, 114, 103, 97, 91,
        85, 78, 72, 66, 60, 54, 47, 41, 35, 29, 23, 16, 10, 1,
        144, 137, 130, 124, 113, 107, 101, 95, 88, 82, 76, 70, 64, 57,
        51, 45, 39, 33, 26, 15, 1, 152, 145, 138, 132, 123, 117, 111,
        105, 98, 92, 86, 80, 74, 67, 61, 55, 49, 43, 36, 20, 1,
        162, 155, 148, 142, 133, 127, 121, 115, 108, 102, 96, 90, 84, 77,
        71, 65, 59, 53, 46, 30, 1, 172, 165, 158, 152, 143, 137, 131,
        125, 118, 112, 106, 100, 94, 87, 81, 75, 69, 63, 56, 45, 20,
        200, 200, 200, 200, 200, 200, 200, 200, 198, 193, 188, 183, 178, 173,
        168, 163, 158, 153, 148, 129, 104,
    ];
    proof {
        assert(t@ =~= static_alloc_seq());
    }
    t[(row * 21 + i) as usize]
}

/// Cost of the intensity-stereo parameter by number of coded bands, in eighths of a bit.
pub open spec fn log2_frac_seq() -> Seq<u8> {
    seq![
        0u8, 8, 13, 16, 19, 21, 23, 24, 26, 27, 28, 29, 30, 31,
        32, 32, 33, 34, 34, 35, 36, 36, 37, 37,
    ]
}

/// Cost of the intensity-stereo parameter by number of coded bands, in eighths of a bit.
pub fn log2_frac(n: usize) -> (r: u8)
    requires
        n < 24,
    ensures
        r == log2_frac_seq()[n as int],
{
    let t: [u8; 24] = [
        0, 8, 13, 16, 19, 21, 23, 24, 26, 27, 28, 29, 30, 31,
        32, 32, 33, 34, 34, 35, 36, 36, 37, 37,
    ];
    proof {
        assert(t@ =~= log2_frac_seq());
    }
    t[n as usize]
}

/// Laplace (frequency, decay) pairs per band of the intra energy model, by duration class.
pub open spec fn coarse_energy_intra_seq() -> Seq<u8> {
    seq![
        24u8, 179, 48, 138, 54, 135, 54, 132, 53, 134, 56, 133, 55, 132,
        55, 132, 61, 114, 70, 96, 74, 88, 75, 88, 87, 74, 89, 66,
        91, 67, 100, 59, 108, 50, 120, 40, 122, 37, 97, 43, 78, 50,
        23, 178, 54, 115, 63, 102, 66, 98, 69, 99, 74, 89, 71, 91,
        73, 91, 78, 89, 86, 80, 92, 66, 93, 64, 102, 59, 103, 60,
        104, 60, 117, 52, 123, 44, 138, 35, 133, 31, 97, 38, 77, 45,
        21, 178, 59, 110, 71, 86, 75, 85, 84, 83, 91, 66, 88, 73,
        87, 72, 92, 75, 98, 72, 105, 58, 107, 54, 115, 52, 114, 55,
        112, 56, 129, 51, 132, 40, 150, 33, 140, 29, 98, 35, 77, 42,
        22, 178, 63, 114, 74, 82, 84, 83, 92, 82, 103, 62, 96, 72,
        96, 67, 101, 73, 107, 72, 113, 55, 118, 52, 125, 52, 118, 52,
        117, 55, 135, 49, 137, 39, 157, 32, 145, 29, 97, 33, 77, 40,
    ]
}

/// Laplace (frequency, decay) pairs per band of the intra energy model, by duration class.
pub fn coarse_energy_intra(lm: usize, k: usize) -> (r: u8)
    requires
        lm < 4 && k < 42,
    ensures
        r == coarse_energy_intra_seq()[(lm * 42 + k) as int],
{
    let t: [u8; 168] = [
        24, 179, 48, 138, 54, 135, 54, 132, 53, 134, 56, 133, 55, 132,
        55, 132, 61, 114, 70, 96, 74, 88, 75, 88, 87, 74, 89, 66,
        91, 67, 100, 59, 108, 50, 120, 40, 122, 37, 97, 43, 78, 50,
        23, 178, 54, 115, 63, 102, 66, 98, 69, 99, 74, 89, 71, 91,
        73, 91, 78, 89, 86, 80, 92, 66, 93, 64, 102, 59, 103, 60,
        104, 60, 117, 52, 123, 44, 138, 35, 133, 31, 97, 38, 77, 45,
        21, 178, 59, 110, 71, 86, 75, 85, 84, 83, 91, 66, 88, 73,
        87, 72, 92, 75, 98, 72, 105, 58, 107, 54, 115, 52, 114, 55,
        112, 56, 129, 51, 132, 40, 150, 33, 140, 29, 98, 35, 77, 42,
        22, 178, 63, 114, 74, 82, 84, 83, 92, 82, 103, 62, 96, 72,
        96, 67, 101, 73, 107, 72, 113, 55, 118, 52, 125, 52, 118, 52,
        117, 55, 135, 49, 137, 39, 157, 32, 145, 29, 97, 33, 77, 40,
    ];
    proof {
        assert(t@ =~= coarse_energy_intra_seq());
    }
    t[(lm * 42 + k) as usize]
}

/// Laplace (frequency, decay) pairs per band of the inter energy model, by duration class.
pub open spec fn coarse_energy_inter_seq() -> Seq<u8> {
    seq![
        72u8, 127, 65, 129, 66, 128, 65, 128, 64, 128, 62, 128, 64, 128,
        64, 128, 92, 78, 92, 79, 92, 78, 90, 79, 116, 41, 115, 40,
        114, 40, 132, 26, 132, 26, 145, 17, 161, 12, 176, 10, 177, 11,
        83, 78, 84, 81, 88, 75, 86, 74, 87, 71, 90, 73, 93, 74,
        93, 74, 109, 40, 114, 36, 117, 34, 117, 34, 143, 17, 145, 18,
        146, 19, 162, 12, 165, 10, 178, 7, 189, 6, 190, 8, 177, 9,
        61, 90, 93, 60, 105, 42, 107, 41, 110, 45, 116, 38, 113, 38,
        112, 38, 124, 26, 132, 27, 136, 19, 140, 20, 155, 14, 159, 16,
        158, 18, 170, 13, 177, 10, 187, 8, 192, 6, 175, 9, 159, 10,
        42, 121, 96, 66, 108, 43, 111, 40, 117, 44, 123, 32, 120, 36,
        119, 33, 127, 33, 134, 34, 139, 21, 147, 23, 152, 20, 158, 25,
        154, 26, 166, 21, 173, 16, 184, 13, 184, 10, 150, 13, 139, 15,
    ]
}

/// Laplace (frequency, decay) pairs per band of the inter energy model, by duration class.
pub fn coarse_energy_inter(lm: usize, k: usize) -> (r: u8)
    requires
        lm < 4 && k < 42,
    ensures
        r == coarse_energy_inter_seq()[(lm * 42 + k) as int],
{
    let t: [u8; 168] = [
        72, 127, 65, 129, 66, 128, 65, 128, 64, 128, 62, 128, 64, 128,
        64, 128, 92, 78, 92, 79, 92, 78, 90, 79, 116, 41, 115, 40,
        114, 40, 132, 26, 132, 26, 145, 17, 161, 12, 176, 10, 177, 11,
        83, 78, 84, 81, 88, 75, 86, 74, 87, 71, 90, 73, 93, 74,
        93, 74, 109, 40, 114, 36, 117, 34, 117, 34, 143, 17, 145, 18,
        146, 19, 162, 12, 165, 10, 178, 7, 189, 6, 190, 8, 177, 9,
        61, 90, 93, 60, 105, 42, 107, 41, 110, 45, 116, 38, 113, 38,
        112, 38, 124, 26, 132, 27, 136, 19, 140, 20, 155, 14, 159, 16,
        158, 18, 170, 13, 177, 10, 187, 8, 192, 6, 175, 9, 159, 10,
        42, 121, 96, 66, 108, 43, 111, 40, 117, 44, 123, 32, 120, 36,
        119, 33, 127, 33, 134, 34, 139, 21, 147, 23, 152, 20, 158, 25,
        154, 26, 166, 21, 173, 16, 184, 13, 184, 10, 150, 13, 139, 15,
    ];
    proof {
        assert(t@ =~= coarse_energy_inter_seq());
    }
    t[(lm * 42 + k) as usize]
}

/// Time-frequency resolution change by duration class, transient flag, select bit and changed flag.
pub open spec fn tf_select_seq() -> Seq<i8> {
    seq![
        0i8, -1i8, 0, -1i8, 0, -1i8, 0, -1i8, 0, -1i8, 0, -2i8, 1, 0,
        1, -1i8, 0, -2i8, 0, -3i8, 2, 0, 1, -1i8, 0, -2i8, 0, -3i8,
        3, 0, 1, -1i8,
    ]
}

/// Time-frequency resolution change by duration class, transient flag, select bit and changed flag.
pub fn tf_select(lm: usize, transient: usize, select: usize, changed: usize) -> (r: i8)
    requires
        lm < 4 && transient < 2 && select < 2 && changed < 2,
    ensures
        r == tf_select_seq()[(lm * 8 + transient * 4 + select * 2 + changed) as int],
{
    let t: [i8; 32] = [
        0, -1, 0, -1, 0, -1, 0, -1, 0, -1, 0, -2, 1, 0,
        1, -1, 0, -2, 0, -3, 2, 0, 1, -1, 0, -2, 0, -3,
        3, 0, 1, -1,
    ];
    proof {
        assert(t@ =~= tf_select_seq());
    }
    t[(lm * 8 + transient * 4 + select * 2 + changed) as usize]
}

/// Builds a symbol model from its cumulative bounds.
fn model(total: usize, dist: Vec<usize>) -> (r: ICDFContext)
    ensures
        r.total == total,
        r.dist@ == dist@,
{
    ICDFContext { total, dist }
}

/// The postfilter tapset model.
pub fn model_tapset() -> (r: ICDFContext)
    ensures
        r.wf(),
        r.total == 4,
        r.dist@ == seq![2usize, 3, 4],
{
    let r = model(4, vec![2, 3, 4]);
    assert(r.dist@ =~= seq![2usize, 3, 4]);
    r
}

/// The coarse-energy model used when fewer than 15 bits remain.
pub fn model_energy_small() -> (r: ICDFContext)
    ensures
        r.wf(),
        r.total == 4,
        r.dist@ == seq![2usize, 3, 4],
{
    let r = model(4, vec![2, 3, 4]);
    assert(r.dist@ =~= seq![2usize, 3, 4]);
    r
}

/// The spreading decision model.
pub fn model_spread() -> (r: ICDFContext)
    ensures
        r.wf(),
        r.total == 32,
        r.dist@ == seq![7usize, 9, 30, 32],
{
    let r = model(32, vec![7, 9, 30, 32]);
    assert(r.dist@ =~= seq![7usize, 9, 30, 32]);
    r
}

/// The allocation trim model.
pub fn model_alloc_trim() -> (r: ICDFContext)
    ensures
        r.wf(),
        r.total == 128,
        r.dist@ == seq![2usize, 4, 9, 19, 41, 87, 109, 119, 124, 126, 128],
{
    let r = model(128, vec![2, 4, 9, 19, 41, 87, 109, 119, 124, 126, 128]);
    assert(r.dist@ =~= seq![2usize, 4, 9, 19, 41, 87, 109, 119, 124, 126, 128]);
    r
}

} // verus!
