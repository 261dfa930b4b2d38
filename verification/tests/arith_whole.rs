use fomu::arith::{from_whole, greater, is_below, lesser, minus, negate, whole_part_up_to, INFINITY};
use fomu::sample::UNITY;

#[test]
fn whole_numbers_become_the_nearest_pattern() {
    for n in 0..70_000u64 {
        assert_eq!(from_whole(n), (n as f32).to_bits());
    }
    let picks: [u64; 14] = [
        0x0100_0000,
        0x0100_0001,
        0x0100_0002,
        0x0100_0003,
        0xFFFF_FFFF,
        0x1_0000_0000,
        0x3FFF_FFFF_FFFF_FFFF,
        0x4000_0000_0000_0000,
        0x4000_0040_0000_0000,
        0x4000_0040_0000_0001,
        0x7FFF_FFFF_FFFF_FFFF,
        0xFFFF_FF7F_FFFF_FFFF,
        0xFFFF_FF80_0000_0000,
        u64::MAX,
    ];
    for n in picks {
        assert_eq!(from_whole(n), (n as f32).to_bits(), "n = {:#x}", n);
    }
    let mut state: u64 = 0x1234_5678_9ABC_DEF1;
    for _ in 0..200_000 {
        state ^= state << 13;
        state ^= state >> 7;
        state ^= state << 17;
        let n = state >> (state % 64);
        assert_eq!(from_whole(n), (n as f32).to_bits(), "n = {:#x}", n);
    }
}

#[test]
fn the_whole_part_cuts_off_what_follows_the_point() {
    let picks = [
        0.0f32, 0.4, 0.999, 1.0, 1.5, 7.99, 8.0, 8.01, 99.99, 100.0, 255.9, 256.0, 1.0e9, 4.0e9,
        1.8e19, 1.9e19, 3.0e38, -0.0, -0.5, -3.0, 1.0e-40,
    ];
    for v in picks {
        let bits = v.to_bits();
        assert_eq!(whole_part_up_to(bits, u64::MAX), v as u64, "v = {}", v);
        assert_eq!(whole_part_up_to(bits, 8), (v as u64).min(8), "v = {}", v);
        assert_eq!(whole_part_up_to(bits, 255), (v as u8) as u64, "v = {}", v);
        assert_eq!(whole_part_up_to(bits, u32::MAX as u64), (v as u32) as u64, "v = {}", v);
    }
    assert_eq!(whole_part_up_to(INFINITY, 77), 77);
    assert_eq!(whole_part_up_to(0xFF80_0000, 77), 0);
    assert_eq!(whole_part_up_to(f32::NAN.to_bits(), 77), 0);
    let mut bits: u64 = 0;
    while bits <= u32::MAX as u64 {
        let v = f32::from_bits(bits as u32);
        assert_eq!(whole_part_up_to(bits as u32, u64::MAX), v as u64, "bits = {:#x}", bits);
        bits += 7919;
    }
}

#[test]
fn numbers_are_compared_as_numbers() {
    let picks = [
        0.0f32,
        -0.0,
        1.0,
        -1.0,
        0.5,
        2.5,
        -2.5,
        1.0e-45,
        -1.0e-45,
        f32::INFINITY,
        f32::NEG_INFINITY,
        f32::NAN,
    ];
    for a in picks {
        for b in picks {
            assert_eq!(is_below(a.to_bits(), b.to_bits()), a < b, "{} < {}", a, b);
            if a != b || a.is_nan() {
                let low = lesser(a.to_bits(), b.to_bits());
                let high = greater(a.to_bits(), b.to_bits());
                if a.min(b).is_nan() {
                    assert!(f32::from_bits(low).is_nan());
                    assert!(f32::from_bits(high).is_nan());
                } else {
                    assert_eq!(low, a.min(b).to_bits(), "min({}, {})", a, b);
                    assert_eq!(high, a.max(b).to_bits(), "max({}, {})", a, b);
                }
            }
        }
    }
    assert_eq!(lesser(UNITY, UNITY), UNITY);
}

#[test]
fn a_difference_is_the_sum_with_the_other_sign() {
    assert_eq!(negate(UNITY), (-1.0f32).to_bits());
    assert_eq!(negate(0x8000_0000), 0);
    assert_eq!(minus(UNITY, 0.7f32.to_bits()), (1.0f32 - 0.7f32).to_bits());
    assert_eq!(minus(UNITY, 0.7f32.to_bits()), 0x3E99_999A);
    assert_eq!(minus(0.25f32.to_bits(), UNITY), (-0.75f32).to_bits());
    assert_eq!(minus(UNITY, UNITY), 0);
}
