use opus::bitread::{BitReadBE, ReverseBitReadLE};

#[test]
fn reverse_bitread() {
    let buf = &[197, 105, 76, 120, 136, 74, 169, 50, 225, 8, 231, 211, 227, 151, 186, 58, 173, 139];

    let mut r = ReverseBitReadLE::new(buf);

    assert_eq!(r.get_bits_32(3), 3);
    assert_eq!(r.get_bits_32(3), 1);
    assert_eq!(r.get_bits_32(3), 6);
    assert_eq!(r.get_bits_32(3), 6);
    assert_eq!(r.get_bits_32(3), 2);
    assert_eq!(r.get_bits_32(3), 5);
    assert_eq!(r.get_bits_32(3), 6);
    assert_eq!(r.get_bits_32(3), 1);
    assert_eq!(r.get_bits_32(2), 2);
    assert_eq!(r.get_bits_32(2), 2);
    assert_eq!(r.get_bits_32(3), 3);
    assert_eq!(r.get_bits_32(3), 7);
    assert_eq!(r.get_bits_32(3), 5);
    assert_eq!(r.get_bits_32(3), 4);
    assert_eq!(r.get_bits_32(2), 3);
    assert_eq!(r.get_bits_32(2), 0);
    assert_eq!(r.get_bits_32(3), 6);
    assert_eq!(r.get_bits_32(3), 7);
    assert_eq!(r.get_bits_32(3), 4);
    assert_eq!(r.get_bits_32(3), 6);
    assert_eq!(r.get_bits_32(3), 7);
    assert_eq!(r.get_bits_32(3), 4);
    assert_eq!(r.get_bits_32(3), 3);
    assert_eq!(r.get_bits_32(3), 4);
    assert_eq!(r.get_bits_32(3), 0);
    assert_eq!(r.get_bits_32(3), 2);
    assert_eq!(r.get_bits_32(3), 0);
    assert_eq!(r.get_bits_32(3), 7);
    assert_eq!(r.get_bits_32(3), 2);
    assert_eq!(r.get_bits_32(3), 6);
    assert_eq!(r.get_bits_32(3), 4);
    assert_eq!(r.get_bits_32(3), 4);
    assert_eq!(r.get_bits_32(3), 2);
    assert_eq!(r.get_bits_32(3), 5);
    assert_eq!(r.get_bits_32(3), 2);
    assert_eq!(r.get_bits_32(3), 2);
    assert_eq!(r.get_bits_32(3), 0);
    assert_eq!(r.get_bits_32(3), 1);
    assert_eq!(r.get_bits_32(3), 2);
    assert_eq!(r.get_bits_32(3), 4);
    assert_eq!(r.get_bits_32(4), 7);
    assert_eq!(r.get_bits_32(4), 12);
    assert_eq!(r.get_bits_32(19), 284308);
}

#[test]
fn forward_bitread_msb_first() {
    let buf = &[0b1011_0010u8, 0b0111_1111];
    let mut r = BitReadBE::new(buf);
    assert_eq!(r.get_bits_32(3), 0b101);
    assert_eq!(r.get_bits_32(7), 0b1_0010_01);
    assert_eq!(r.get_bits_32(6), 0b11_1111);
}

#[test]
fn bitread_past_end_reads_zero() {
    let buf = &[0xffu8];
    let mut f = BitReadBE::new(buf);
    assert_eq!(f.get_bits_32(4), 0xf);
    assert_eq!(f.get_bits_32(8), 0xf0);
    assert_eq!(f.get_bits_32(32), 0);
    let mut r = ReverseBitReadLE::new(buf);
    assert_eq!(r.get_bits_32(12), 0xff);
    assert_eq!(r.get_bits_32(5), 0);
}
