use image_adjust::arithmetic::twice;
use image_adjust::binary64::{less_than, nan, HALF, INFINITY, NAN, ONE, SIGN_BIT, TWO, ZERO};

/// A fixed sequence of 64-bit words, well mixed.
fn next_word(state: &mut u64) -> u64 {
    *state = state.wrapping_add(0x9E37_79B9_7F4A_7C15);
    let mut z = *state;
    z = (z ^ (z >> 30)).wrapping_mul(0xBF58_476D_1CE4_E5B9);
    z = (z ^ (z >> 27)).wrapping_mul(0x94D0_49BB_1331_11EB);
    z ^ (z >> 31)
}

fn same_number(ours: u64, theirs: f64) -> bool {
    if theirs.is_nan() {
        nan(ours)
    } else {
        ours == theirs.to_bits()
    }
}

#[test]
fn constants_are_the_numbers_they_name() {
    assert_eq!(ZERO, 0.0f64.to_bits());
    assert_eq!(HALF, 0.5f64.to_bits());
    assert_eq!(ONE, 1.0f64.to_bits());
    assert_eq!(TWO, 2.0f64.to_bits());
    assert_eq!(INFINITY, f64::INFINITY.to_bits());
    assert_eq!(SIGN_BIT, (-0.0f64).to_bits());
    assert!(f64::from_bits(NAN).is_nan());
}

#[test]
fn nan_is_told_from_numbers() {
    assert!(nan(f64::NAN.to_bits()));
    assert!(nan(0x7FF0_0000_0000_0001));
    assert!(nan(0xFFFF_FFFF_FFFF_FFFF));
    assert!(!nan(f64::INFINITY.to_bits()));
    assert!(!nan(f64::NEG_INFINITY.to_bits()));
    assert!(!nan(f64::MAX.to_bits()));
    assert!(!nan(0));
}

#[test]
fn order_at_the_edges() {
    let zero = 0.0f64.to_bits();
    let minus_zero = (-0.0f64).to_bits();
    assert!(!less_than(minus_zero, zero));
    assert!(!less_than(zero, minus_zero));
    assert!(less_than((-f64::MIN_POSITIVE).to_bits(), zero));
    assert!(less_than(0x8000_0000_0000_0001, zero));
    assert!(less_than(f64::NEG_INFINITY.to_bits(), f64::MIN.to_bits()));
    assert!(less_than(f64::MAX.to_bits(), f64::INFINITY.to_bits()));
    assert!(!less_than(f64::INFINITY.to_bits(), f64::INFINITY.to_bits()));
    assert!(!less_than(f64::NAN.to_bits(), zero));
    assert!(!less_than(zero, f64::NAN.to_bits()));
    assert!(less_than(1.0f64.to_bits(), 1.0000000000000002f64.to_bits()));
    assert!(less_than((-1.0000000000000002f64).to_bits(), (-1.0f64).to_bits()));
}

#[test]
fn order_agrees_with_the_processor() {
    let mut state: u64 = 1;
    for _ in 0..200_000 {
        let a = next_word(&mut state);
        let b = next_word(&mut state);
        assert_eq!(less_than(a, b), f64::from_bits(a) < f64::from_bits(b), "{a:#x} < {b:#x}");
        let near = a ^ (next_word(&mut state) & 3);
        assert_eq!(less_than(a, near), f64::from_bits(a) < f64::from_bits(near), "{a:#x} < {near:#x}");
        let mirrored = a ^ (1 << 63);
        assert_eq!(
            less_than(a, mirrored),
            f64::from_bits(a) < f64::from_bits(mirrored),
            "{a:#x} < {mirrored:#x}"
        );
    }
}

#[test]
fn twice_exact_values() {
    assert_eq!(twice(0.5f64.to_bits()), 1.0f64.to_bits());
    assert_eq!(twice(1.0f64.to_bits()), 2.0f64.to_bits());
    assert_eq!(twice(0.0f64.to_bits()), 0.0f64.to_bits());
    assert_eq!(twice((-0.0f64).to_bits()), (-0.0f64).to_bits());
    assert_eq!(twice((-1.5f64).to_bits()), (-3.0f64).to_bits());
    assert_eq!(twice(f64::MAX.to_bits()), f64::INFINITY.to_bits());
    assert_eq!(twice(f64::MIN.to_bits()), f64::NEG_INFINITY.to_bits());
    assert_eq!(twice(f64::INFINITY.to_bits()), f64::INFINITY.to_bits());
    assert_eq!(twice(f64::NEG_INFINITY.to_bits()), f64::NEG_INFINITY.to_bits());
    assert_eq!(twice(1), 2);
    assert_eq!(twice(0x000F_FFFF_FFFF_FFFF), 0x001F_FFFF_FFFF_FFFE);
    assert_eq!(twice(0x0008_0000_0000_0000), 0x0010_0000_0000_0000);
    assert_eq!(twice(f64::NAN.to_bits()), NAN);
}

#[test]
fn twice_agrees_with_the_processor() {
    let mut state: u64 = 2;
    for _ in 0..200_000 {
        let x = next_word(&mut state);
        assert!(same_number(twice(x), f64::from_bits(x) * 2.0), "{x:#x}");
    }
    for e in 0..2048u64 {
        for f in [0u64, 1, 2, 0x8_0000_0000_0000, 0xF_FFFF_FFFF_FFFE, 0xF_FFFF_FFFF_FFFF] {
            let x = (e << 52) | f;
            assert!(same_number(twice(x), f64::from_bits(x) * 2.0), "{x:#x}");
            let y = x | (1 << 63);
            assert!(same_number(twice(y), f64::from_bits(y) * 2.0), "{y:#x}");
        }
    }
}
