use lamefiles::size::{scaled, to_readable_size, unit_name, unit_of};

const KIB: u64 = 1024;
const MIB: u64 = 1024 * 1024;
const GIB: u64 = 1024 * 1024 * 1024;
const TIB: u64 = 1024 * 1024 * 1024 * 1024;

/// The scaled value of `size` as its exact float is formatted, held under
/// 1024 below the last unit.
fn float_reading(size: u64) -> String {
    let shown = size.max(1);
    let (unit, divisor) = unit_of(size);
    let number = format!("{:.2}", shown as f64 / divisor as f64);
    if unit < 4 && number == "1024.00" {
        format!("1023.99 {}", unit_name(unit))
    } else {
        format!("{} {}", number, unit_name(unit))
    }
}

#[test]
fn nothing_reads_as_one_byte() {
    assert_eq!(to_readable_size(0), "1.00 Byte");
    assert_eq!(to_readable_size(1), "1.00 Byte");
}

#[test]
fn bytes_read_whole() {
    assert_eq!(to_readable_size(5), "5.00 Byte");
    assert_eq!(to_readable_size(135), "135.00 Byte");
    assert_eq!(to_readable_size(1023), "1023.00 Byte");
}

#[test]
fn each_unit_starts_at_its_power_of_1024() {
    assert_eq!(to_readable_size(KIB), "1.00 KiB");
    assert_eq!(to_readable_size(MIB), "1.00 MiB");
    assert_eq!(to_readable_size(GIB), "1.00 GiB");
    assert_eq!(to_readable_size(TIB), "1.00 TiB");
}

#[test]
fn fractions_have_two_decimals() {
    assert_eq!(to_readable_size(1536), "1.50 KiB");
    assert_eq!(to_readable_size(1024 + 103), "1.10 KiB");
    assert_eq!(to_readable_size(5 * MIB + MIB / 4), "5.25 MiB");
    assert_eq!(to_readable_size(2047), "2.00 KiB");
    assert_eq!(to_readable_size(10 * GIB + GIB / 100), "10.01 GiB");
}

#[test]
fn a_tie_goes_to_the_even_hundredth() {
    // 1152 bytes are 1.125 KiB, 1280 + 128 bytes are 1.375 KiB.
    assert_eq!(to_readable_size(1152), "1.12 KiB");
    assert_eq!(to_readable_size(1408), "1.38 KiB");
    assert_eq!(to_readable_size(1152 * KIB), "1.12 MiB");
}

#[test]
fn just_below_the_next_unit_the_number_stays_under_1024() {
    assert_eq!(to_readable_size(MIB - 1), "1023.99 KiB");
    assert_eq!(to_readable_size(MIB - 5), "1023.99 KiB");
    assert_eq!(to_readable_size(MIB - 6), "1023.99 KiB");
    assert_eq!(to_readable_size(MIB - 16), "1023.98 KiB");
    assert_eq!(to_readable_size(GIB - 1), "1023.99 MiB");
    assert_eq!(to_readable_size(TIB - 1), "1023.99 GiB");
    assert_eq!(to_readable_size(1023), "1023.00 Byte");
}

#[test]
fn in_the_last_unit_the_number_rounds_past_1024() {
    assert_eq!(to_readable_size(1024 * TIB - 1), "1024.00 TiB");
    assert_eq!(to_readable_size(1024 * TIB + TIB / 200), "1024.00 TiB");
    assert_eq!(to_readable_size(1024 * TIB + TIB / 100), "1024.01 TiB");
}

#[test]
fn the_last_unit_takes_everything_beyond() {
    assert_eq!(to_readable_size(1024 * TIB), "1024.00 TiB");
    assert_eq!(to_readable_size(5000 * TIB), "5000.00 TiB");
    assert_eq!(to_readable_size(u64::MAX), "16777216.00 TiB");
}

#[test]
fn unit_of_gives_unit_and_divisor() {
    assert_eq!(unit_of(0), (0, 1));
    assert_eq!(unit_of(1023), (0, 1));
    assert_eq!(unit_of(1024), (1, KIB));
    assert_eq!(unit_of(MIB - 1), (1, KIB));
    assert_eq!(unit_of(MIB), (2, MIB));
    assert_eq!(unit_of(GIB), (3, GIB));
    assert_eq!(unit_of(TIB), (4, TIB));
    assert_eq!(unit_of(u64::MAX), (4, TIB));
}

#[test]
fn unit_names() {
    assert_eq!(unit_name(0), "Byte");
    assert_eq!(unit_name(1), "KiB");
    assert_eq!(unit_name(2), "MiB");
    assert_eq!(unit_name(3), "GiB");
    assert_eq!(unit_name(4), "TiB");
}

#[test]
fn the_unit_is_always_one_of_the_five() {
    let mut size: u64 = 1;
    loop {
        for probe in [size - 1, size, size + 1] {
            let (unit, divisor) = unit_of(probe);
            assert!(unit <= 4);
            assert!(divisor <= probe.max(1));
            if unit < 4 {
                assert!(probe.max(1) / divisor < 1024);
            }
            let text = to_readable_size(probe);
            assert!(text.ends_with(unit_name(unit)));
        }
        match size.checked_mul(2) {
            Some(next) => size = next,
            None => break,
        }
    }
}

#[test]
fn below_the_last_unit_the_number_lies_between_1_and_1024() {
    let mut size: u64 = 0;
    while size < 3_000_000 {
        let text = to_readable_size(size);
        let number: f64 = text.split(' ').next().unwrap().parse().unwrap();
        assert!(number >= 1.0, "{} reads {}", size, text);
        assert!(number < 1024.0, "{} reads {}", size, text);
        size += 977;
    }
    let mut next: u64 = 1024;
    while next <= TIB {
        for below in 1..1000 {
            let text = to_readable_size(next - below);
            let number: f64 = text.split(' ').next().unwrap().parse().unwrap();
            assert!(1.0 <= number && number < 1024.0, "{} reads {}", next - below, text);
        }
        next *= 1024;
    }
}

#[test]
fn agrees_with_the_rounding_of_exact_floats() {
    // Below 2^53 the scaled value is an exact float, so that the two
    // decimals of its formatting are those of the exact value.
    let mut size: u64 = 0;
    while size < 5_000_000 {
        assert_eq!(to_readable_size(size), float_reading(size), "size {}", size);
        size += 1;
    }
    let mut size: u64 = 1;
    while size < (1u64 << 52) {
        for probe in [size, size + size / 8, size + size / 3, size * 2 - 1] {
            assert_eq!(to_readable_size(probe), float_reading(probe), "size {}", probe);
        }
        size *= 2;
    }
}

#[test]
fn the_scaled_count_comes_in_hundredths_with_its_unit() {
    assert_eq!(scaled(0), (100, 0));
    assert_eq!(scaled(135), (13500, 0));
    assert_eq!(scaled(1536), (150, 1));
    assert_eq!(scaled(MIB - 1), (102399, 1));
    assert_eq!(scaled(1024 * TIB - 1), (102400, 4));
    assert_eq!(scaled(MIB), (100, 2));
    assert_eq!(scaled(u64::MAX), (1677721600, 4));
    let mut size: u64 = 1;
    loop {
        for probe in [size - 1, size, size + size / 2] {
            let (hundredths, unit) = scaled(probe);
            assert!(unit <= 4);
            assert!(hundredths >= 100);
            if unit < 4 {
                assert!(hundredths < 102400);
            }
        }
        match size.checked_mul(2) {
            Some(next) => size = next,
            None => break,
        }
    }
}
