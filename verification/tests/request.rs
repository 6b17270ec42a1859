use image_adjust::arithmetic::LARGEST_WITHOUT_RECIPROCAL;
use image_adjust::binary64::{nan, NAN};
use image_adjust::request::{RangeViolation, Field, Request, TransformParameters};

/// A fixed sequence of 64-bit words, well mixed.
fn mixed(state: &mut u64) -> u64 {
    *state = state.wrapping_add(0x9E37_79B9_7F4A_7C15);
    let mut z = *state;
    z = (z ^ (z >> 30)).wrapping_mul(0xBF58_476D_1CE4_E5B9);
    z = (z ^ (z >> 27)).wrapping_mul(0x94D0_49BB_1331_11EB);
    z ^ (z >> 31)
}

fn request(brightness: f64, contrast: f64) -> Request {
    Request { brightness: brightness.to_bits(), contrast: contrast.to_bits() }
}

fn normalized(brightness: f64, contrast: f64) -> (f64, f64) {
    let request = request(brightness, contrast);
    assert_eq!(request.validate(), Ok(()));
    let TransformParameters { scale, offset } = request.normalize();
    (f64::from_bits(scale), f64::from_bits(offset))
}

fn agrees(ours: u64, theirs: f64) -> bool {
    if theirs.is_nan() {
        nan(ours)
    } else {
        ours == theirs.to_bits()
    }
}

fn check_against_processor(brightness: u64, contrast: u64) {
    let request = Request { brightness, contrast };
    assert_eq!(request.validate(), Ok(()), "{brightness:#x} {contrast:#x}");
    let parameters = request.normalize();
    let b = f64::from_bits(brightness);
    let c = f64::from_bits(contrast);
    assert!(agrees(parameters.scale, b * 2.0), "scale for {brightness:#x}");
    assert!(agrees(parameters.offset, 1.0 / c - 1.0), "offset for {contrast:#x}");
}

#[test]
fn neutral_request_gives_the_identity() {
    assert_eq!(normalized(0.5, 1.0), (1.0, 0.0));
    let parameters = request(0.5, 1.0).normalize();
    assert_eq!(parameters, TransformParameters { scale: 1.0f64.to_bits(), offset: 0.0f64.to_bits() });
}

#[test]
fn normalize_doubles_brightness_and_inverts_contrast() {
    assert_eq!(normalized(1.0, 0.5), (2.0, 1.0));
    assert_eq!(normalized(0.0, 0.25), (0.0, 3.0));
    assert_eq!(normalized(0.75, 0.8), (1.5, 0.25));
    assert_eq!(normalized(3.0, 0.125), (6.0, 7.0));
    assert_eq!(normalized(1e300, 1.0), (2e300, 0.0));
}

#[test]
fn normalize_rounds_as_the_processor_does() {
    assert_eq!(normalized(0.1, 0.3), (0.2, 2.3333333333333335));
    assert_eq!(normalized(0.3, 0.1), (0.6, 9.0));
    assert_eq!(normalized(0.7, 0.7), (1.4, 0.4285714285714286));
    assert_eq!(normalized(1.1, 0.9), (2.2, 0.11111111111111116));
    assert_eq!(normalized(0.5, 1e-16).1, 1e16);
    assert_eq!(normalized(0.5, 3e-16).1, 3333333333333332.5);
    assert_eq!(normalized(0.5, 1.5e-16).1, 6666666666666666.0);
    assert_eq!(normalized(0.5, 1e-17).1, 1e17);
    assert_eq!(normalized(0.5, 1e-300).1, 9.999999999999999e299);
}

#[test]
fn contrast_of_zero_is_out_of_range() {
    for brightness in [0.0, 0.5, 1.0, 1e300, f64::INFINITY, -0.0] {
        for contrast in [0.0f64, -0.0] {
            assert_eq!(
                request(brightness, contrast).validate(),
                Err(RangeViolation { field: Field::Contrast, value: contrast.to_bits() })
            );
        }
    }
    assert!(!Field::Contrast.takes(0.0f64.to_bits()));
    assert!(!Field::Contrast.takes((-0.0f64).to_bits()));
    assert!(Field::Contrast.takes(f64::from_bits(1).to_bits()));
    assert!(Field::Brightness.takes(0.0f64.to_bits()));
    assert!(Field::Brightness.takes((-0.0f64).to_bits()));
}

#[test]
fn brightness_below_zero_wins_over_contrast_of_zero() {
    assert_eq!(
        request(-1.0, 0.0).validate(),
        Err(RangeViolation { field: Field::Brightness, value: (-1.0f64).to_bits() })
    );
}

#[test]
fn brightness_has_no_upper_bound() {
    assert_eq!(normalized(f64::MAX, 1.0), (f64::INFINITY, 0.0));
    assert_eq!(normalized(f64::INFINITY, 1.0), (f64::INFINITY, 0.0));
    assert_eq!(normalized(-0.0, 1.0).0.to_bits(), (-0.0f64).to_bits());
}

#[test]
fn contrasts_up_to_two_to_the_minus_1024_have_an_infinite_offset() {
    assert_eq!(normalized(0.5, f64::from_bits(1)).1, f64::INFINITY);
    assert_eq!(normalized(0.5, f64::from_bits(0x0004_0000_0000_0000)).1, f64::INFINITY);
    assert_eq!(normalized(0.5, f64::from_bits(0x0004_0000_0000_0001)).1, 1.7976931348623143e308);
    assert_eq!(normalized(0.5, f64::MIN_POSITIVE).1, 4.49423283715579e307);
    assert_eq!(0x0004_0000_0000_0000, LARGEST_WITHOUT_RECIPROCAL);
    assert_eq!(f64::from_bits(LARGEST_WITHOUT_RECIPROCAL), 2.0f64.powi(-1024));
}

#[test]
fn nan_is_below_nothing_and_passes() {
    let request = request(f64::NAN, f64::NAN);
    assert_eq!(request.validate(), Ok(()));
    assert_eq!(request.normalize(), TransformParameters { scale: NAN, offset: NAN });
}

#[test]
fn normalize_agrees_with_the_processor() {
    let one = 1.0f64.to_bits();
    let infinity = f64::INFINITY.to_bits();
    let mut state: u64 = 5;
    for _ in 0..300_000 {
        let word = mixed(&mut state);
        let other = mixed(&mut state);
        check_against_processor(word % (infinity + 1), 1 + other % one);
        check_against_processor(word >> 12, (other >> 12).max(1));
        check_against_processor(word >> 12, (other >> 10).max(1));
        check_against_processor(word % (infinity + 1), one - (other >> 44));
    }
    for e in 0..1023u64 {
        for f in [0u64, 1, 2, 3, 0x8_0000_0000_0000, 0xF_FFFF_FFFF_FFFE, 0xF_FFFF_FFFF_FFFF] {
            let contrast = ((e << 52) | f).max(1);
            check_against_processor((e << 52) | f, contrast);
            check_against_processor(((e + 1023) << 52) | f, contrast);
        }
    }
    for x in 1..4096u64 {
        check_against_processor(x - 1, x);
        check_against_processor(x, one - x);
    }
    check_against_processor(0, one);
}

#[test]
fn offsets_near_two_to_the_53_round_to_even() {
    // 1 / contrast lands between 2^52 and 2^55, where subtracting one stops
    // being exact.
    let low = (2.0f64.powi(-55)).to_bits();
    let high = (2.0f64.powi(-52)).to_bits();
    let mut state: u64 = 6;
    for _ in 0..300_000 {
        let contrast = low + mixed(&mut state) % (high - low + 1);
        check_against_processor(0.5f64.to_bits(), contrast);
    }
    for step in 0..64u64 {
        for exponent in 52..56 {
            let contrast = (2.0f64.powi(-exponent)).to_bits();
            check_against_processor(0.5f64.to_bits(), contrast + step);
            check_against_processor(0.5f64.to_bits(), contrast - step);
        }
    }
}

#[test]
fn brightness_below_zero_is_rejected() {
    for brightness in [-1.0, -0.5, -1e-300, -f64::MIN_POSITIVE, -5e-324, f64::MIN, f64::NEG_INFINITY] {
        assert_eq!(
            request(brightness, 1.0).validate(),
            Err(RangeViolation { field: Field::Brightness, value: brightness.to_bits() })
        );
    }
}

#[test]
fn contrast_outside_zero_to_one_is_rejected() {
    for contrast in [-1.0, -5e-324, f64::NEG_INFINITY, 1.0000000000000002, 2.0, f64::MAX, f64::INFINITY] {
        assert_eq!(
            request(0.5, contrast).validate(),
            Err(RangeViolation { field: Field::Contrast, value: contrast.to_bits() })
        );
    }
}

#[test]
fn brightness_is_checked_before_contrast() {
    assert_eq!(
        request(-1.0, 2.0).validate(),
        Err(RangeViolation { field: Field::Brightness, value: (-1.0f64).to_bits() })
    );
}

#[test]
fn values_in_range_pass() {
    for (brightness, contrast) in
        [(0.0, 5e-324), (0.5, 1.0), (0.0, 1.0), (1e308, 5e-324), (f64::INFINITY, 0.5), (-0.0, 0.25)]
    {
        assert_eq!(request(brightness, contrast).validate(), Ok(()));
    }
}

#[test]
fn validate_agrees_with_the_processor() {
    let mut state: u64 = 7;
    for round in 0..200_000u64 {
        let brightness = mixed(&mut state);
        let contrast = match round % 64 {
            0 => 0,
            1 => 1 << 63,
            _ => mixed(&mut state) >> (mixed(&mut state) % 3),
        };
        let b = f64::from_bits(brightness);
        let c = f64::from_bits(contrast);
        let expected = if b < 0.0 {
            Err(RangeViolation { field: Field::Brightness, value: brightness })
        } else if c < 0.0 || c > 1.0 || c == 0.0 {
            Err(RangeViolation { field: Field::Contrast, value: contrast })
        } else {
            Ok(())
        };
        assert_eq!(Request { brightness, contrast }.validate(), expected);
    }
}

#[test]
fn message_names_field_value_and_range() {
    let brightness = RangeViolation { field: Field::Brightness, value: (-1.5f64).to_bits() };
    assert_eq!(brightness.message("-1.5"), "Bad brightness value: -1.5, allowed range is [0.0; +inf]");
    let contrast = RangeViolation { field: Field::Contrast, value: 2.0f64.to_bits() };
    assert_eq!(contrast.message("2"), "Bad contrast value: 2, allowed range is (0.0; 1.0]");
    assert_eq!(contrast.message(""), "Bad contrast value: , allowed range is (0.0; 1.0]");
}

#[test]
fn field_names_and_ranges() {
    assert_eq!(Field::Brightness.name(), "brightness");
    assert_eq!(Field::Contrast.name(), "contrast");
    assert_eq!(Field::Brightness.allowed_range(), "[0.0; +inf]");
    assert_eq!(Field::Contrast.allowed_range(), "(0.0; 1.0]");
}
