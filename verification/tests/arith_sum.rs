use fomu::arith::{plus, INFINITY};
use fomu::sample::{SILENCE, UNITY};

fn check(a: u32, b: u32) {
    let expected = f32::from_bits(a) + f32::from_bits(b);
    let got = plus(a, b);
    if expected.is_nan() {
        assert!(f32::from_bits(got).is_nan(), "{:#x} + {:#x} gave {:#x}", a, b, got);
    } else {
        assert_eq!(got, expected.to_bits(), "{:#x} + {:#x}", a, b);
    }
}

#[test]
fn sums_of_chosen_samples() {
    assert_eq!(plus(0.5f32.to_bits(), 0.25f32.to_bits()), 0.75f32.to_bits());
    assert_eq!(plus(0.5f32.to_bits(), (-0.5f32).to_bits()), SILENCE);
    assert_eq!(plus(UNITY, UNITY), 2.0f32.to_bits());
    assert_eq!(plus(0x8000_0000, 0x8000_0000), 0x8000_0000);
    assert_eq!(plus(0x8000_0000, 0), 0);
    assert_eq!(plus(0, 0), 0);
    assert_eq!(plus(1, 1), 2);
    assert_eq!(plus(0x007F_FFFF, 1), 0x0080_0000);
    assert_eq!(plus(0x7F7F_FFFF, 0x7F7F_FFFF), INFINITY);
    assert_eq!(plus(0x7F7F_FFFF, 0x7300_0000), INFINITY);
    assert_eq!(plus(0x7F7F_FFFF, 0x72FF_FFFF), 0x7F7F_FFFF);
    assert_eq!(plus(0.1f32.to_bits(), 0.2f32.to_bits()), (0.1f32 + 0.2f32).to_bits());
    assert_eq!(plus(0.1f32.to_bits(), 0.2f32.to_bits()), 0x3E99_999A);
}

#[test]
fn sums_with_nans_and_infinities() {
    let nan = f32::NAN.to_bits();
    for other in [0u32, UNITY, INFINITY, nan, 0x8000_0000, 0xFF80_0000, 0x7F7F_FFFF] {
        check(nan, other);
        check(other, nan);
        check(INFINITY, other);
        check(other, INFINITY);
        check(0xFF80_0000, other);
        check(other, 0xFF80_0000);
    }
}

#[test]
fn sums_agree_with_the_machine_on_edge_patterns() {
    let edges: [u32; 30] = [
        0x0000_0000,
        0x0000_0001,
        0x0000_0002,
        0x0000_0003,
        0x007F_FFFF,
        0x0080_0000,
        0x0080_0001,
        0x00FF_FFFF,
        0x0100_0000,
        0x0100_0001,
        0x0C80_0000,
        0x0D00_0000,
        0x0D00_0001,
        0x0D80_0000,
        0x3280_0000,
        0x3300_0000,
        0x3300_0001,
        0x3380_0000,
        0x3EFF_FFFF,
        0x3F00_0000,
        0x3F7F_FFFF,
        0x3F80_0000,
        0x3F80_0001,
        0x3FFF_FFFF,
        0x4000_0000,
        0x4B80_0000,
        0x4C00_0000,
        0x7F00_0000,
        0x7F7F_FFFE,
        0x7F7F_FFFF,
    ];
    for a in edges {
        for b in edges {
            check(a, b);
            check(a | 0x8000_0000, b);
            check(a, b | 0x8000_0000);
            check(a | 0x8000_0000, b | 0x8000_0000);
        }
    }
}

#[test]
fn sums_agree_with_the_machine_on_many_patterns() {
    let mut state: u64 = 0xD1B5_4A32_D192_ED03;
    let mut next = move || {
        state ^= state << 13;
        state ^= state >> 7;
        state ^= state << 17;
        state
    };
    for _ in 0..400_000 {
        let r = next();
        check(r as u32, (r >> 32) as u32);
    }
    // Numbers whose exponents lie close together, so that digits cancel or carry.
    for _ in 0..600_000 {
        let r = next();
        let a = r as u32;
        let exponent = (a >> 23) & 0xFF;
        let shift = (r >> 60) as u32 + ((r >> 56) as u32 & 0xF) + ((r >> 52) as u32 & 0x3);
        let other = exponent.saturating_sub(shift).min(254);
        let b = ((r >> 32) as u32 & 0x807F_FFFF) | (other << 23);
        check(a, b);
        check(b, a);
    }
}
