use sysinfo_cli::binary32::{fixed1, rank_of};

fn text(value: f32) -> String {
    fixed1(value.to_bits())
}

#[test]
fn one_decimal_place() {
    assert_eq!(text(50.0), "50.0");
    assert_eq!(text(45.5), "45.5");
    assert_eq!(text(10.0), "10.0");
    assert_eq!(text(0.0), "0.0");
    assert_eq!(text(99.96), "100.0");
    assert_eq!(text(99.94), "99.9");
    assert_eq!(text(12.34), "12.3");
    assert_eq!(text(12.36), "12.4");
    assert_eq!(text(-3.14), "-3.1");
}

#[test]
fn halfway_goes_to_the_even_digit() {
    assert_eq!(text(0.25), "0.2");
    assert_eq!(text(0.75), "0.8");
    assert_eq!(text(2.25), "2.2");
    assert_eq!(text(2.75), "2.8");
    assert_eq!(text(-0.25), "-0.2");
}

#[test]
fn what_is_no_finite_number() {
    assert_eq!(text(f32::NAN), "NaN");
    assert_eq!(fixed1(0xffc0_0000), "NaN");
    assert_eq!(fixed1(0x7f80_0001), "NaN");
    assert_eq!(text(f32::INFINITY), "inf");
    assert_eq!(text(f32::NEG_INFINITY), "-inf");
}

#[test]
fn the_sign_of_zero_shows() {
    assert_eq!(text(-0.0), "-0.0");
    assert_eq!(text(-0.01), "-0.0");
}

#[test]
fn the_ends_of_the_range() {
    assert_eq!(text(f32::MAX), "340282346638528859811704183484516925440.0");
    assert_eq!(text(f32::MIN), "-340282346638528859811704183484516925440.0");
    assert_eq!(text(f32::MIN_POSITIVE), "0.0");
    assert_eq!(fixed1(1), "0.0");
    assert_eq!(text(16_777_216.0), "16777216.0");
    assert_eq!(text(8_388_607.5), "8388607.5");
}

#[test]
fn agrees_with_the_formatting_of_std() {
    let mut seed: u32 = 0x9e37_79b9;
    for _ in 0..200_000 {
        seed ^= seed << 13;
        seed ^= seed >> 17;
        seed ^= seed << 5;
        let value = f32::from_bits(seed);
        assert_eq!(fixed1(seed), format!("{:.1}", value), "{:#x}", seed);
    }
    for step in 0..40_000u32 {
        let value = step as f32 / 80.0;
        assert_eq!(text(value), format!("{:.1}", value), "{}", value);
        assert_eq!(text(-value), format!("{:.1}", -value), "{}", value);
    }
}

#[test]
fn rank_orders_as_the_numbers_do() {
    let values = [
        f32::NEG_INFINITY,
        f32::MIN,
        -1.0e10,
        -2.5,
        -1.0,
        -f32::MIN_POSITIVE,
        -1.0e-45,
        0.0,
        1.0e-45,
        f32::MIN_POSITIVE,
        0.1,
        1.0,
        1.5,
        100.0,
        f32::MAX,
        f32::INFINITY,
    ];
    for a in values {
        for b in values {
            assert_eq!(rank_of(a.to_bits()) < rank_of(b.to_bits()), a < b, "{} {}", a, b);
            assert_eq!(rank_of(a.to_bits()) == rank_of(b.to_bits()), a == b, "{} {}", a, b);
        }
    }
    assert_eq!(rank_of((-0.0f32).to_bits()), rank_of(0.0f32.to_bits()));
}

#[test]
fn what_is_no_number_ranks_lowest() {
    let nan = rank_of(f32::NAN.to_bits());
    assert!(nan < rank_of(f32::NEG_INFINITY.to_bits()));
    assert_eq!(nan, rank_of(0xffc0_0001));
}
