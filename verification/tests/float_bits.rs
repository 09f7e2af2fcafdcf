use concinnity_gfx::float_bits::FloatBits;

fn bits(x: f32) -> FloatBits {
    FloatBits::new(x.to_bits())
}

const VALUES: [f32; 11] = [
    0.0,
    -0.0,
    1.0,
    -1.0,
    0.5,
    1.0e-40,
    -1.0e-40,
    f32::MAX,
    f32::INFINITY,
    f32::NEG_INFINITY,
    f32::NAN,
];

#[test]
fn the_order_is_that_of_the_numbers() {
    for a in VALUES {
        for b in VALUES {
            assert_eq!(bits(a).lt(bits(b)), a < b);
            assert_eq!(bits(a).le(bits(b)), a <= b);
        }
        assert_eq!(bits(a).is_nan(), a.is_nan());
        assert_eq!(bits(a).is_finite(), a.is_finite());
    }
}

#[test]
fn the_lesser_and_the_greater() {
    for a in VALUES {
        for b in VALUES {
            let (lo, hi) = (bits(a).min(bits(b)), bits(a).max(bits(b)));
            let (want_lo, want_hi) = (a.min(b), a.max(b));
            if want_lo.is_nan() {
                assert!(lo.is_nan() && hi.is_nan());
            } else {
                assert_eq!(f32::from_bits(lo.bits), want_lo);
                assert_eq!(f32::from_bits(hi.bits), want_hi);
            }
        }
    }
}
