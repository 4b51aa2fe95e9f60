use disk_usage::strfmt::{format_size, u64_to_string, u128_to_string};

#[test]
fn decimal_rendering() {
    assert_eq!(u64_to_string(0), "0");
    assert_eq!(u64_to_string(7), "7");
    assert_eq!(u64_to_string(10), "10");
    assert_eq!(u64_to_string(12345), "12345");
    assert_eq!(u64_to_string(u64::MAX), "18446744073709551615");
    assert_eq!(u128_to_string(0), "0");
    assert_eq!(u128_to_string(123456789012345678901234567890), "123456789012345678901234567890");
}

#[test]
fn format_size_examples() {
    assert_eq!(format_size(0), "0");
    assert_eq!(format_size(1023), "1023");
    assert_eq!(format_size(1024), "1.0 KB");
    assert_eq!(format_size(1572864), "1.5 MB");
    assert_eq!(format_size(1073741824), "1.0 GB");
}

#[test]
fn format_size_band_boundaries() {
    assert_eq!(format_size(1048575), "1024.0 KB");
    assert_eq!(format_size(1048576), "1.0 MB");
    assert_eq!(format_size(1073741823), "1024.0 MB");
    assert_eq!(format_size(1099511627775), "1024.0 GB");
    assert_eq!(format_size(1099511627776), "1.0 TB");
}

#[test]
fn format_size_rounding() {
    assert_eq!(format_size(1536), "1.5 KB");
    assert_eq!(format_size(10240), "10.0 KB");
    assert_eq!(format_size(107374182400), "100.0 GB");
    assert_eq!(format_size(1126999418470), "1.0 TB");
}
