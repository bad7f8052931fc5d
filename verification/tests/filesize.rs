use rich_rust::filesize::{
    binary, binary_with_precision, decimal, decimal_with_precision, format_size, SizeUnit,
};

#[test]
fn test_decimal_bytes() {
    assert_eq!(decimal(0), "0 bytes");
    assert_eq!(decimal(1), "1 bytes");
    assert_eq!(decimal(999), "999 bytes");
}

#[test]
fn test_decimal_kilobytes() {
    assert_eq!(decimal(1_000), "1.0 kB");
    assert_eq!(decimal(1_500), "1.5 kB");
    assert_eq!(decimal(999_000), "999.0 kB");
}

#[test]
fn test_decimal_megabytes() {
    assert_eq!(decimal(1_000_000), "1.0 MB");
    assert_eq!(decimal(1_500_000), "1.5 MB");
    assert_eq!(decimal(999_000_000), "999.0 MB");
}

#[test]
fn test_decimal_gigabytes() {
    assert_eq!(decimal(1_000_000_000), "1.0 GB");
    assert_eq!(decimal(1_500_000_000), "1.5 GB");
}

#[test]
fn test_decimal_terabytes() {
    assert_eq!(decimal(1_000_000_000_000), "1.0 TB");
    assert_eq!(decimal(1_500_000_000_000), "1.5 TB");
}

#[test]
fn test_binary_bytes() {
    assert_eq!(binary(0), "0 bytes");
    assert_eq!(binary(1), "1 bytes");
    assert_eq!(binary(1023), "1023 bytes");
}

#[test]
fn test_binary_kibibytes() {
    assert_eq!(binary(1_024), "1.0 KiB");
    assert_eq!(binary(1_536), "1.5 KiB");
}

#[test]
fn test_binary_mebibytes() {
    assert_eq!(binary(1_048_576), "1.0 MiB");
    assert_eq!(binary(1_572_864), "1.5 MiB");
}

#[test]
fn test_binary_gibibytes() {
    assert_eq!(binary(1_073_741_824), "1.0 GiB");
    assert_eq!(binary(1_610_612_736), "1.5 GiB");
}

#[test]
fn test_precision() {
    assert_eq!(decimal_with_precision(1_234_567, 0), "1 MB");
    assert_eq!(decimal_with_precision(1_234_567, 1), "1.2 MB");
    assert_eq!(decimal_with_precision(1_234_567, 2), "1.23 MB");
    assert_eq!(decimal_with_precision(1_234_567, 3), "1.235 MB");
}

#[test]
fn test_negative_size() {
    assert_eq!(format_size(-1_000, SizeUnit::Decimal, 1), "-1.0 kB");
    assert_eq!(format_size(-1_500_000, SizeUnit::Decimal, 1), "-1.5 MB");
}

#[test]
fn test_large_sizes() {
    // Petabytes
    assert_eq!(decimal(1_000_000_000_000_000), "1.0 PB");
    assert_eq!(binary(1_125_899_906_842_624), "1.0 PiB");

    // Exabytes
    assert_eq!(decimal(1_000_000_000_000_000_000), "1.0 EB");
    assert_eq!(binary(1_152_921_504_606_846_976), "1.0 EiB");
}

#[test]
fn rounding_carries_into_the_whole_part() {
    assert_eq!(decimal_with_precision(1_999_999, 2), "2.00 MB");
    assert_eq!(decimal_with_precision(9_999, 0), "10 kB");
    assert_eq!(decimal(999_999), "1000.0 kB");
}

#[test]
fn halves_round_to_even() {
    assert_eq!(decimal_with_precision(2_500, 0), "2 kB");
    assert_eq!(decimal_with_precision(3_500, 0), "4 kB");
    assert_eq!(decimal_with_precision(1_250, 1), "1.2 kB");
    assert_eq!(decimal_with_precision(1_350, 1), "1.4 kB");
}

#[test]
fn binary_precision() {
    assert_eq!(binary_with_precision(1_572_864, 2), "1.50 MiB");
    assert_eq!(binary_with_precision(1_073_741_824, 3), "1.000 GiB");
    assert_eq!(decimal_with_precision(1_536_000, 2), "1.54 MB");
    assert_eq!(decimal_with_precision(1_234_567_890, 3), "1.235 GB");
}

#[test]
fn extreme_sizes() {
    assert_eq!(format_size(i64::MIN, SizeUnit::Binary, 1), "-8.0 EiB");
    assert_eq!(format_size(i64::MAX, SizeUnit::Decimal, 2), "9.22 EB");
    assert_eq!(decimal(u64::MAX), "-1 bytes");
    assert_eq!(format_size(-5, SizeUnit::default(), 3), "-5 bytes");
}
