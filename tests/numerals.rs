use queue_recovery::decimal::{parse_i32, parse_u64, push_decimal};
use queue_recovery::segment::{segment_file_name, segment_number_of};

#[test]
fn parse_u64_reads_plain_and_plus_signed_numerals() {
    assert_eq!(parse_u64(b"12345", 0, 5), Some(12345));
    assert_eq!(parse_u64(b"+7", 0, 2), Some(7));
    assert_eq!(parse_u64(b"007", 0, 3), Some(7));
    assert_eq!(parse_u64(b"18446744073709551615", 0, 20), Some(u64::MAX));
}

#[test]
fn parse_u64_rejects_what_from_str_rejects() {
    assert_eq!(parse_u64(b"", 0, 0), None);
    assert_eq!(parse_u64(b"+", 0, 1), None);
    assert_eq!(parse_u64(b"-1", 0, 2), None);
    assert_eq!(parse_u64(b"12a", 0, 3), None);
    assert_eq!(parse_u64(b"18446744073709551616", 0, 20), None);
}

#[test]
fn parse_u64_reads_only_the_range() {
    assert_eq!(parse_u64(b"x42.q", 1, 3), Some(42));
}

#[test]
fn parse_i32_follows_the_signed_rules() {
    assert_eq!(parse_i32(b"2147483647", 0, 10), Some(i32::MAX));
    assert_eq!(parse_i32(b"-2147483648", 0, 11), Some(i32::MIN));
    assert_eq!(parse_i32(b"2147483648", 0, 10), None);
    assert_eq!(parse_i32(b"-", 0, 1), None);
    assert_eq!(parse_i32(b"+15", 0, 3), Some(15));
    assert_eq!(parse_i32(b" 15", 0, 3), None);
}

#[test]
fn push_decimal_appends_the_numeral() {
    let mut out = b"n=".to_vec();
    push_decimal(0, &mut out);
    assert_eq!(out, b"n=0".to_vec());
    let mut out = Vec::new();
    push_decimal(u64::MAX, &mut out);
    assert_eq!(out, b"18446744073709551615".to_vec());
}

#[test]
fn segment_file_name_is_number_then_extension() {
    assert_eq!(segment_file_name(0), b"0.q".to_vec());
    assert_eq!(segment_file_name(1234), b"1234.q".to_vec());
}

#[test]
fn segment_file_name_reads_back() {
    for n in [0u64, 9, 10, 99, 100, 4096, u64::MAX] {
        assert_eq!(segment_number_of(&segment_file_name(n)), Ok(Some(n)));
    }
}

#[test]
fn segment_number_of_classifies_names() {
    assert_eq!(segment_number_of(b"17.q"), Ok(Some(17)));
    assert_eq!(segment_number_of(b"send.lock"), Ok(None));
    assert_eq!(segment_number_of(b"send-metadata"), Ok(None));
    assert_eq!(segment_number_of(b".q"), Ok(None));
    assert_eq!(segment_number_of(b"17.qq"), Ok(None));
    assert_eq!(segment_number_of(b"foo.q"), Err(()));
    assert_eq!(segment_number_of(b"1.2.q"), Err(()));
}
