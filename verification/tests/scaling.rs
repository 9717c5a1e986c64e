use sysinfo_cli::fmt::format_bytes;
use sysinfo_cli::numeral::{decimal_text, div_round};

#[test]
fn zero_is_a_literal() {
    assert_eq!(format_bytes(0), "0 B");
}

#[test]
fn each_unit_starts_at_its_power_of_1024() {
    assert_eq!(format_bytes(1), "1.00 B");
    assert_eq!(format_bytes(1 << 10), "1.00 KiB");
    assert_eq!(format_bytes(1 << 20), "1.00 MiB");
    assert_eq!(format_bytes(1 << 30), "1.00 GiB");
    assert_eq!(format_bytes(1 << 40), "1.00 TiB");
    assert_eq!(format_bytes(1 << 50), "1.00 PiB");
    assert_eq!(format_bytes(1 << 60), "1.00 EiB");
}

#[test]
fn the_scaled_value_stays_below_1024() {
    assert_eq!(format_bytes(1023), "1023.00 B");
    assert_eq!(format_bytes(1024 * 1023), "1023.00 KiB");
    assert_eq!(format_bytes((1 << 20) - 1024), "1023.00 KiB");
    assert_eq!(format_bytes((1u64 << 50) - (1u64 << 40)), "1023.00 TiB");
}

#[test]
fn two_decimal_places_are_rounded() {
    assert_eq!(format_bytes(1536), "1.50 KiB");
    assert_eq!(format_bytes(2000), "1.95 KiB");
    assert_eq!(format_bytes(1029), "1.00 KiB");
    assert_eq!(format_bytes(1030), "1.01 KiB");
    assert_eq!(format_bytes(512 * 1024), "512.00 KiB");
    assert_eq!(format_bytes(1_500_000_000), "1.40 GiB");
}

#[test]
fn a_value_halfway_goes_to_the_even_digit() {
    // 1152 / 1024 = 1.125 and 1408 / 1024 = 1.375
    assert_eq!(format_bytes(1152), "1.12 KiB");
    assert_eq!(format_bytes(1408), "1.38 KiB");
}

#[test]
fn rounding_may_reach_1024() {
    assert_eq!(format_bytes((1 << 20) - 1), "1024.00 KiB");
    assert_eq!(format_bytes((1u64 << 60) - 1), "1024.00 PiB");
}

#[test]
fn the_largest_count_is_in_exbibytes() {
    assert_eq!(format_bytes(u64::MAX), "16.00 EiB");
    assert_eq!(format_bytes(1u64 << 63), "8.00 EiB");
}

#[test]
fn agrees_with_the_scaled_double_where_it_is_exact() {
    let units = ["B", "KiB", "MiB", "GiB", "TiB", "PiB", "EiB"];
    let mut seed: u64 = 0x2545_f491_4f6c_dd1d;
    for _ in 0..20_000 {
        seed ^= seed << 13;
        seed ^= seed >> 7;
        seed ^= seed << 17;
        let bytes = (seed >> (11 + (seed % 43))) | 1;
        let mut index = 0;
        let mut rest = bytes;
        while rest >= 1024 {
            rest /= 1024;
            index += 1;
        }
        let value = bytes as f64 / 1024.0f64.powi(index as i32);
        assert_eq!(format_bytes(bytes), format!("{:.2} {}", value, units[index]), "{}", bytes);
    }
}

#[test]
fn decimal_numerals() {
    assert_eq!(decimal_text(0), "0");
    assert_eq!(decimal_text(7), "7");
    assert_eq!(decimal_text(10), "10");
    assert_eq!(decimal_text(1_234_567_890), "1234567890");
    assert_eq!(decimal_text(u128::MAX), "340282366920938463463374607431768211455");
}

#[test]
fn division_rounds_half_to_even() {
    assert_eq!(div_round(7, 2), 4);
    assert_eq!(div_round(5, 2), 2);
    assert_eq!(div_round(1, 2), 0);
    assert_eq!(div_round(3, 2), 2);
    assert_eq!(div_round(10, 4), 2);
    assert_eq!(div_round(14, 4), 4);
    assert_eq!(div_round(11, 4), 3);
    assert_eq!(div_round(9, 4), 2);
    assert_eq!(div_round(0, 5), 0);
    assert_eq!(div_round(12, 1), 12);
    assert_eq!(div_round(u128::MAX, 1), u128::MAX);
    assert_eq!(div_round(u128::MAX, u128::MAX), 1);
    assert_eq!(div_round(u128::MAX - 1, u128::MAX), 1);
    assert_eq!(div_round(u128::MAX / 2, u128::MAX), 0);
    assert_eq!(div_round(u128::MAX, 2), u128::MAX / 2 + 1);
}
