use sluggrs::prep::pack_i16_pair;
use sluggrs::words::{low_i16, low_i16_signed};

#[test]
fn packed_pairs_give_their_halves_back() {
    for a in [i16::MIN, -1, 0, 1, 1234, i16::MAX] {
        for b in [i16::MIN, -1, 0, 1, -4321, i16::MAX] {
            let word = pack_i16_pair(a, b);
            assert_eq!(word as i16, a);
            assert_eq!((word >> 16) as i16, b);
        }
    }
    assert_eq!(pack_i16_pair(0x0102, 0x0304), 0x0304_0102);
    assert_eq!(pack_i16_pair(-1, 0), 0xffff);
}

#[test]
fn low_halves_wrap() {
    assert_eq!(low_i16(0x1_8000), -32768);
    assert_eq!(low_i16(u32::MAX), -1);
    assert_eq!(low_i16_signed(-32769), 32767);
    assert_eq!(low_i16_signed(70_000), 4464);
}
