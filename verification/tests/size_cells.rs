use aldar::size::{fixed, human_unit, round_half_even, scientific, size_cell};
use aldar::Aldar;

/// The same cell, computed in floating point.
fn float_cell(sz: u64, human: bool) -> String {
    let (n, unit) = if !human {
        (sz as f64, "")
    } else if sz > (1u64 << 60) {
        ((sz as f64) / ((1u64 << 60) as f64), "PB")
    } else if sz > (1u64 << 50) {
        ((sz as f64) / ((1u64 << 50) as f64), "EB")
    } else if sz > (1u64 << 40) {
        ((sz as f64) / ((1u64 << 40) as f64), "TB")
    } else if sz > (1u64 << 30) {
        ((sz as f64) / ((1u64 << 30) as f64), "GB")
    } else if sz > (1u64 << 20) {
        ((sz as f64) / ((1u64 << 20) as f64), "MB")
    } else if sz > (1u64 << 10) {
        ((sz as f64) / ((1u64 << 10) as f64), "KB")
    } else {
        (sz as f64, "")
    };
    let plain = if n.fract() == 0.0 {
        format!("{:.0}{}", n, unit)
    } else {
        format!("{:.2}{}", n, unit)
    };
    if human {
        if plain.len() < 9 {
            format!(" [{: >8}]", plain)
        } else {
            format!(" [{: >8.4E}{}]", n, unit)
        }
    } else if plain.len() < 12 {
        format!(" [{: >11}]", plain)
    } else {
        format!(" [{: >11.4E}{}]", n, unit)
    }
}

#[test]
fn plain_cell_is_eleven_wide() {
    assert_eq!(size_cell(0, false), " [          0]");
    assert_eq!(size_cell(10, false), " [         10]");
    assert_eq!(size_cell(1023, false), " [       1023]");
    assert_eq!(size_cell(1024, false), " [       1024]");
    assert_eq!(size_cell(99_999_999_999, false), " [99999999999]");
}

#[test]
fn plain_cell_switches_to_exponent_at_twelve_digits() {
    assert_eq!(size_cell(100_000_000_000, false), " [  1.0000E11]");
    assert_eq!(size_cell(123_456_789_012, false), " [  1.2346E11]");
    assert_eq!(size_cell(999_999_999_999, false), " [  1.0000E12]");
    assert_eq!(size_cell(4_000_000_000_000_000, false), " [  4.0000E15]");
}

#[test]
fn bytes_below_first_threshold_stay_plain() {
    assert_eq!(size_cell(0, true), " [       0]");
    assert_eq!(size_cell(5, true), " [       5]");
    assert_eq!(size_cell(1023, true), " [    1023]");
}

#[test]
fn size_at_a_threshold_uses_the_lower_unit() {
    assert_eq!(size_cell(1024, true), " [    1024]");
    assert_eq!(size_cell(1 << 20, true), " [  1024KB]");
    assert_eq!(size_cell(1 << 30, true), " [  1024MB]");
    assert_eq!(size_cell(1 << 40, true), " [  1024GB]");
    assert_eq!(size_cell(1 << 50, true), " [  1024TB]");
    assert_eq!(size_cell(1 << 60, true), " [  1024EB]");
}

#[test]
fn size_just_above_a_threshold_uses_that_unit() {
    assert_eq!(size_cell(1025, true), " [  1.00KB]");
    assert_eq!(size_cell((1 << 20) + 1, true), " [  1.00MB]");
    assert_eq!(size_cell((1 << 30) + 1, true), " [  1.00GB]");
    assert_eq!(size_cell((1 << 40) + 1, true), " [  1.00TB]");
    assert_eq!(size_cell((1 << 50) + 1, true), " [  1.00EB]");
    assert_eq!(size_cell((1 << 60) + 1, true), " [  1.00PB]");
}

#[test]
fn whole_multiples_have_no_decimals() {
    assert_eq!(size_cell(2048, true), " [     2KB]");
    assert_eq!(size_cell(2 << 20, true), " [     2MB]");
    assert_eq!(size_cell(3 << 30, true), " [     3GB]");
    assert_eq!(size_cell(5 << 40, true), " [     5TB]");
    assert_eq!(size_cell(7 << 50, true), " [     7EB]");
    assert_eq!(size_cell(2 << 60, true), " [     2PB]");
}

#[test]
fn fractions_are_rounded_to_two_decimals() {
    assert_eq!(size_cell(1536, true), " [  1.50KB]");
    assert_eq!(size_cell(1029, true), " [  1.00KB]");
    assert_eq!(size_cell(1030, true), " [  1.01KB]");
    assert_eq!(size_cell(123_456_789, true), " [117.74MB]");
    assert_eq!(size_cell(2047, true), " [  2.00KB]");
}

#[test]
fn ties_go_to_the_even_digit() {
    // 1152 / 1024 = 1.125 and 1408 / 1024 = 1.375
    assert_eq!(size_cell(1152, true), " [  1.12KB]");
    assert_eq!(size_cell(1408, true), " [  1.38KB]");
    assert_eq!(round_half_even(5, 2), 2);
    assert_eq!(round_half_even(7, 2), 4);
    assert_eq!(round_half_even(1, 3), 0);
    assert_eq!(round_half_even(2, 3), 1);
    assert_eq!(round_half_even(9, 3), 3);
}

#[test]
fn wide_scaled_numbers_switch_to_exponent() {
    // 1023.5 KB takes nine characters with its unit
    assert_eq!(size_cell(1_048_064, true), " [1.0235E3KB]");
    assert_eq!(size_cell(1_048_575, true), " [1.0240E3KB]");
    // 999.996 KB rounds to 1000.00 and no longer fits
    assert_eq!(size_cell(1_023_996, true), " [1.0000E3KB]");
    assert_eq!(size_cell(1_023_990, true), " [999.99KB]");
}

#[test]
fn largest_size_is_exact() {
    assert_eq!(size_cell(u64::MAX, true), " [ 16.00PB]");
    assert_eq!(size_cell(u64::MAX, false), " [  1.8447E19]");
}

#[test]
fn units_follow_the_thresholds() {
    assert_eq!(human_unit(1024), (1, ""));
    assert_eq!(human_unit(1025), (1 << 10, "KB"));
    assert_eq!(human_unit((1 << 20) + 1), (1 << 20, "MB"));
    assert_eq!(human_unit((1 << 30) + 1), (1 << 30, "GB"));
    assert_eq!(human_unit((1 << 40) + 1), (1 << 40, "TB"));
    assert_eq!(human_unit((1 << 50) + 1), (1 << 50, "EB"));
    assert_eq!(human_unit((1 << 60) + 1), (1 << 60, "PB"));
}

#[test]
fn fixed_and_scientific_notation() {
    assert_eq!(fixed(0, 1), "0");
    assert_eq!(fixed(12345, 1), "12345");
    assert_eq!(fixed(1, 3), "0.33");
    assert_eq!(fixed(2, 3), "0.67");
    assert_eq!(fixed(1999, 1000), "2.00");
    assert_eq!(scientific(0, 1), "0.0000E0");
    assert_eq!(scientific(1, 1), "1.0000E0");
    assert_eq!(scientific(99999, 1), "9.9999E4");
    assert_eq!(scientific(999995, 1), "1.0000E6");
    assert_eq!(scientific(123445, 1), "1.2344E5");
    assert_eq!(scientific(123455, 1), "1.2346E5");
    assert_eq!(scientific(u64::MAX, 1), "1.8447E19");
}

#[test]
fn cells_agree_with_floating_point_on_small_sizes() {
    let mut sz: u64 = 0;
    while sz < 300_000 {
        assert_eq!(size_cell(sz, true), float_cell(sz, true), "human {}", sz);
        assert_eq!(size_cell(sz, false), float_cell(sz, false), "plain {}", sz);
        sz += 1;
    }
}

#[test]
fn cells_agree_with_floating_point_near_thresholds() {
    // sizes below 2^53 are exact in floating point
    for shift in [10u32, 20, 30, 40, 50] {
        let unit = 1u64 << shift;
        for whole in [1u64, 2, 7, 9, 10, 99, 100, 999, 1000, 1023] {
            let mut delta: u64 = 0;
            while delta < 2000 {
                for sz in [whole * unit + delta, whole * unit + unit - 1 - delta] {
                    if sz < (1u64 << 53) {
                        assert_eq!(size_cell(sz, true), float_cell(sz, true), "human {}", sz);
                        assert_eq!(size_cell(sz, false), float_cell(sz, false), "plain {}", sz);
                    }
                }
                delta += 1;
            }
        }
    }
}

#[test]
fn cells_agree_with_floating_point_on_scattered_sizes() {
    // sizes below 2^53 are exact in floating point
    let mut state: u64 = 0x9E37_79B9_7F4A_7C15;
    let mut count = 0;
    while count < 200_000 {
        state = state.wrapping_mul(6364136223846793005).wrapping_add(1442695040888963407);
        let bits = (state >> 58) as u32 % 53;
        let sz = (state >> 11) >> (52 - bits);
        assert_eq!(size_cell(sz, true), float_cell(sz, true), "human {}", sz);
        assert_eq!(size_cell(sz, false), float_cell(sz, false), "plain {}", sz);
        count += 1;
    }
}

#[test]
fn walker_writes_sizes_in_its_own_mode() {
    let mut a = Aldar::new();
    assert_eq!(a.size_as_str(2048), " [       2048]");
    a.show_human_readable(true);
    assert_eq!(a.size_as_str(2048), " [     2KB]");
    assert_eq!(a.size_as_str(1023), " [    1023]");
    assert_eq!(a.size_as_str(1024), " [    1024]");
    assert_eq!(a.size_as_str(1_048_576), " [  1024KB]");
}

#[test]
fn plain_cells_are_equally_wide() {
    let mut sz: u64 = 1;
    while sz < u64::MAX / 3 {
        for n in [sz - 1, sz, sz + 1] {
            assert_eq!(size_cell(n, false).chars().count(), 14, "{}", n);
        }
        sz *= 3;
    }
    assert_eq!(size_cell(u64::MAX, false).chars().count(), 14);
}

#[test]
fn scaled_cells_are_eleven_wide_where_the_number_fits() {
    let mut sz: u64 = 1;
    while sz < u64::MAX / 3 {
        for n in [sz - 1, sz, sz + 1] {
            let cell = size_cell(n, true);
            let (den, unit) = human_unit(n);
            let plain = format!("{}{}", fixed(n, den), unit);
            let expected = if plain.len() <= 8 { 11 } else { 13 };
            assert_eq!(cell.chars().count(), expected, "{}", n);
        }
        sz *= 3;
    }
    assert_eq!(size_cell(1_048_064, true).chars().count(), 13);
}
