use fomu::arith::{divide, INFINITY};
use fomu::sample::{SILENCE, UNITY};

fn check(a: u32, b: u32) {
    let expected = f32::from_bits(a) / f32::from_bits(b);
    let got = divide(a, b);
    if expected.is_nan() {
        assert!(f32::from_bits(got).is_nan(), "{:#x} / {:#x} gave {:#x}", a, b, got);
    } else {
        assert_eq!(got, expected.to_bits(), "{:#x} / {:#x}", a, b);
    }
}

#[test]
fn quotients_of_chosen_samples() {
    assert_eq!(divide(UNITY, 2.0f32.to_bits()), 0.5f32.to_bits());
    assert_eq!(divide(UNITY, 3.0f32.to_bits()), 0x3EAA_AAAB);
    assert_eq!(divide(2.0f32.to_bits(), 3.0f32.to_bits()), 0x3F2A_AAAB);
    assert_eq!(divide((-6.0f32).to_bits(), 3.0f32.to_bits()), (-2.0f32).to_bits());
    assert_eq!(divide(UNITY, SILENCE), INFINITY);
    assert_eq!(divide(UNITY, 0x8000_0000), 0xFF80_0000);
    assert_eq!(divide(SILENCE, UNITY), SILENCE);
    assert_eq!(divide(1, 2.0f32.to_bits()), 0);
    assert_eq!(divide(3, 2.0f32.to_bits()), 2);
    assert_eq!(divide(0x7F7F_FFFF, 0.5f32.to_bits()), INFINITY);
    assert_eq!(divide(12.0f32.to_bits(), 2048.0f32.to_bits()), (12.0f32 / 2048.0).to_bits());
}

#[test]
fn quotients_with_nans_infinities_and_zeros() {
    let nan = f32::NAN.to_bits();
    let specials = [0u32, UNITY, INFINITY, nan, 0x8000_0000, 0xFF80_0000, 0x7F7F_FFFF, 1];
    for a in specials {
        for b in specials {
            check(a, b);
        }
    }
}

#[test]
fn quotients_agree_with_the_machine_on_edge_patterns() {
    let edges: [u32; 24] = [
        0x0000_0001,
        0x0000_0002,
        0x0000_0003,
        0x007F_FFFF,
        0x0080_0000,
        0x0080_0001,
        0x00FF_FFFF,
        0x0100_0000,
        0x1F80_0000,
        0x2000_0000,
        0x3380_0000,
        0x3400_0000,
        0x3EFF_FFFF,
        0x3F00_0000,
        0x3F7F_FFFF,
        0x3F80_0000,
        0x3F80_0001,
        0x3FFF_FFFF,
        0x4040_0000,
        0x4B00_0000,
        0x5F00_0000,
        0x7F00_0000,
        0x7F7F_FFFE,
        0x7F7F_FFFF,
    ];
    for a in edges {
        for b in edges {
            check(a, b);
            check(a | 0x8000_0000, b);
            check(a, b | 0x8000_0000);
        }
    }
}

#[test]
fn quotients_agree_with_the_machine_on_many_patterns() {
    let mut state: u64 = 0x2545_F491_4F6C_DD1D;
    let mut next = move || {
        state ^= state << 13;
        state ^= state >> 7;
        state ^= state << 17;
        state
    };
    for _ in 0..400_000 {
        let r = next();
        check(r as u32, (r >> 32) as u32);
    }
    // Sums of magnitudes by the number of the bins they were taken over.
    for _ in 0..200_000 {
        let r = next();
        let sum = 0x3000_0000 + (r as u32 % 0x1800_0000);
        let count = (1 + (r >> 40) % 1024) as f32;
        check(sum, count.to_bits());
    }
    // Quotients that end among the smallest patterns.
    for _ in 0..200_000 {
        let r = next();
        let a = (r as u32) % 0x1000_0000;
        let b = 0x3000_0000 + ((r >> 32) as u32) % 0x4F00_0000;
        check(a, b);
    }
}
