use fomu::arith::{multiply, INFINITY, QUIET_NAN};
use fomu::sample::{SILENCE, UNITY};

fn check(a: u32, b: u32) {
    let expected = f32::from_bits(a) * f32::from_bits(b);
    let got = multiply(a, b);
    if expected.is_nan() {
        assert!(f32::from_bits(got).is_nan(), "{:#x} * {:#x} gave {:#x}", a, b, got);
    } else {
        assert_eq!(got, expected.to_bits(), "{:#x} * {:#x}", a, b);
    }
}

#[test]
fn the_constants_are_the_patterns_of_infinity_and_of_a_nan() {
    assert_eq!(INFINITY, f32::INFINITY.to_bits());
    assert!(f32::from_bits(QUIET_NAN).is_nan());
}

#[test]
fn products_of_chosen_samples() {
    assert_eq!(multiply(0.5f32.to_bits(), 0.5f32.to_bits()), 0.25f32.to_bits());
    assert_eq!(multiply(0.8f32.to_bits(), 0.25f32.to_bits()), 0.2f32.to_bits());
    assert_eq!(multiply((-0.75f32).to_bits(), 0.8f32.to_bits()), (-0.75f32 * 0.8f32).to_bits());
    assert_eq!(multiply((-0.75f32).to_bits(), 0.8f32.to_bits()), 0xBF19_999A);
    assert_eq!(multiply(3.0f32.to_bits(), (-7.0f32).to_bits()), (-21.0f32).to_bits());
    assert_eq!(multiply(0x0000_0001, 0.5f32.to_bits()), 0);
    assert_eq!(multiply(0x0000_0003, 0.5f32.to_bits()), 2);
    assert_eq!(multiply(0x0000_0001, 0.75f32.to_bits()), 1);
    assert_eq!(multiply(0x7F7F_FFFF, 2.0f32.to_bits()), INFINITY);
    assert_eq!(multiply(0xFF7F_FFFF, 2.0f32.to_bits()), 0xFF80_0000);
}

#[test]
fn volume_one_keeps_and_volume_zero_silences() {
    let picks = [0u32, 1, 0x0080_0000, 0x3F00_0000, 0xBF80_0000, 0x7F7F_FFFF, 0x8000_0001];
    for sample in picks {
        assert_eq!(multiply(sample, UNITY), sample);
        assert_eq!(multiply(UNITY, sample), sample);
        assert_eq!(multiply(sample, SILENCE) & 0x7FFF_FFFF, 0);
    }
    assert_eq!(multiply(INFINITY, UNITY), INFINITY);
    assert_eq!(multiply(0xFF80_0000, UNITY), 0xFF80_0000);
    assert_eq!(multiply(SILENCE, 0.8f32.to_bits()), SILENCE);
    assert_eq!(multiply(0x8000_0000, 0.8f32.to_bits()), 0x8000_0000);
}

#[test]
fn nans_and_infinities() {
    let nan = f32::NAN.to_bits();
    for other in [0u32, UNITY, INFINITY, nan, 0x8000_0000, 0xFF80_0000] {
        check(nan, other);
        check(other, nan);
        check(0xFFC0_1234, other);
        check(0x7F80_0001, other);
    }
    check(INFINITY, 0);
    check(0, INFINITY);
    check(0x8000_0000, INFINITY);
    check(INFINITY, INFINITY);
    check(0xFF80_0000, INFINITY);
    check(INFINITY, 0x0000_0001);
    check(0xFF80_0000, 0xBF80_0000);
}

#[test]
fn products_agree_with_the_machine_on_edge_patterns() {
    let edges: [u32; 24] = [
        0x0000_0000,
        0x0000_0001,
        0x0000_0002,
        0x0000_0003,
        0x007F_FFFF,
        0x0080_0000,
        0x0080_0001,
        0x00FF_FFFF,
        0x0100_0000,
        0x1F80_0000,
        0x2000_0000,
        0x3380_0000,
        0x3400_0000,
        0x3EFF_FFFF,
        0x3F00_0000,
        0x3F7F_FFFF,
        0x3F80_0000,
        0x3F80_0001,
        0x3FFF_FFFF,
        0x4000_0000,
        0x5F00_0000,
        0x7F00_0000,
        0x7F7F_FFFE,
        0x7F7F_FFFF,
    ];
    for a in edges {
        for b in edges {
            check(a, b);
            check(a | 0x8000_0000, b);
            check(a, b | 0x8000_0000);
            check(a | 0x8000_0000, b | 0x8000_0000);
        }
    }
}

#[test]
fn products_agree_with_the_machine_on_many_patterns() {
    let mut state: u64 = 0x9E37_79B9_7F4A_7C15;
    let mut next = move || {
        state ^= state << 13;
        state ^= state >> 7;
        state ^= state << 17;
        state
    };
    for _ in 0..400_000 {
        let r = next();
        check(r as u32, (r >> 32) as u32);
    }
    // Samples of ordinary loudness at volumes between zero and one.
    for _ in 0..200_000 {
        let r = next();
        let sample = 0x3000_0000 + (r as u32 % 0x0F80_0001) | ((r >> 63) as u32) << 31;
        let volume = (r >> 32) as u32 % (UNITY + 1);
        check(sample, volume);
    }
    // Products that end among the smallest patterns.
    for _ in 0..200_000 {
        let r = next();
        let a = (r as u32) % 0x2000_0000;
        let b = 0x1000_0000 + ((r >> 32) as u32) % 0x3000_0000;
        check(a, b);
    }
}
