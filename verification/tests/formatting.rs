use colored::control::set_override;
use neols::listing::formatting::{decimal_string, format_bytes, metadata_columns, print_metadata};

#[test]
fn sizes_below_a_thousand_have_no_unit() {
    assert_eq!(format_bytes(0), "0");
    assert_eq!(format_bytes(7), "7");
    assert_eq!(format_bytes(999), "999");
}

#[test]
fn sizes_from_a_thousand_are_in_k() {
    assert_eq!(format_bytes(1000), "1K");
    assert_eq!(format_bytes(1499), "1K");
    assert_eq!(format_bytes(1500), "2K");
    assert_eq!(format_bytes(999_499), "999K");
    assert_eq!(format_bytes(999_500), "1000K");
    assert_eq!(format_bytes(999_999), "1000K");
}

#[test]
fn sizes_from_a_million_are_in_m() {
    assert_eq!(format_bytes(1_000_000), "1M");
    assert_eq!(format_bytes(1_499_999), "1M");
    assert_eq!(format_bytes(1_500_000), "2M");
    assert_eq!(format_bytes(999_999_999), "1000M");
}

#[test]
fn sizes_from_a_thousand_million_are_in_g() {
    assert_eq!(format_bytes(1_000_000_000), "1G");
    assert_eq!(format_bytes(2_000_000_000), "2G");
    assert_eq!(format_bytes(2_500_000_000), "3G");
}

#[test]
fn the_largest_size_does_not_overflow() {
    assert_eq!(format_bytes(u64::MAX), "18446744074G");
}

#[test]
fn decimal_string_writes_every_digit() {
    assert_eq!(decimal_string(0), "0");
    assert_eq!(decimal_string(10), "10");
    assert_eq!(decimal_string(1234567890), "1234567890");
    assert_eq!(decimal_string(u64::MAX), "18446744073709551615");
}

#[test]
fn columns_are_filled_to_thirty_one_characters() {
    let text = metadata_columns("  No     ", "12K ");
    assert_eq!(text, "  No     12K                    ");
    assert_eq!(text.chars().count(), 32);
}

#[test]
fn columns_longer_than_the_width_are_kept_whole() {
    let flag = "0123456789012345678901234567890";
    assert_eq!(metadata_columns(flag, ""), format!("{} ", flag));
    assert_eq!(metadata_columns(flag, "123"), format!("{}123 ", flag));
}

#[test]
fn columns_count_characters_not_bytes() {
    let text = metadata_columns("é", "");
    assert_eq!(text.chars().count(), 32);
    assert_eq!(text, format!("é{}", " ".repeat(31)));
}

#[test]
fn plain_metadata_of_a_read_only_file() {
    set_override(false);
    assert_eq!(print_metadata(true, 1_500_000), "  Yes    2M                     ");
}

#[test]
fn plain_metadata_of_a_writable_file() {
    set_override(false);
    assert_eq!(print_metadata(false, 0), "  No     0                      ");
    assert_eq!(print_metadata(false, 999), "  No     999                    ");
}
